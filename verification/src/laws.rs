use vstd::prelude::*;

use crate::program::{instr_flow_ok, Instr, MemV, Program, StateV, StepError};
use crate::ast::{AExpr, ChannelName, Target, CG};
use crate::program::InstrPtr;
use crate::shape::{alike, lemma_step_at_alike, mem_alike};
use crate::halts::{lemma_step_at_halt, lemma_step_at_nonempty};
use crate::sync_laws::lemma_sync_steps_calm;
use crate::semantics::{
    add_handover, all_from, any_from, broadcast_steps, collective_steps, deliver, follow,
    follow_state, gather_into, gather_orderings, gather_steps, handover, is_halt,
    is_stuck_or_halt, items_of, pair_branch_receive, pair_branches, pair_send_branch, pair_steps,
    pairs_from, program_flow_ok, program_jump_measure, regular_items, settled, step_at, step_exe,
    step_items, step_spec, stuck_spec, successors_of, sync_from, sync_steps, terminated_spec,
};

verus! {

// ---------------------------------------------------------------------------
// Items of a step.

/// Every item is an error that `ok` accepts.
pub open spec fn all_errors(items: Seq<Option<Result<StateV, StepError>>>, ok: spec_fn(StepError) -> bool) -> bool {
    forall|j: int| 0 <= j < items.len() ==> (#[trigger] items[j] matches Some(Err(e)) && ok(e))
}

proof fn lemma_all_from_errors(items: Seq<Option<Result<StateV, StepError>>>, ok: spec_fn(StepError) -> bool, k: int)
    requires
        0 <= k,
        all_from(items, ok, k) == Some(true),
    ensures
        forall|j: int| k <= j < items.len() ==> (#[trigger] items[j] matches Some(Err(e)) && ok(e)),
    decreases items.len() - k,
{
    if k < items.len() {
        lemma_all_from_errors(items, ok, k + 1);
    }
}

proof fn lemma_successors_of_errors(items: Seq<Option<Result<StateV, StepError>>>, ok: spec_fn(StepError) -> bool)
    requires
        all_errors(items, ok),
    ensures
        successors_of(items) == Some(Seq::<StateV>::empty()),
    decreases items.len(),
{
    if items.len() > 0 {
        assert(all_errors(items.drop_last(), ok)) by {
            assert forall|j: int| 0 <= j < items.drop_last().len() implies (#[trigger] items.drop_last()[j] matches Some(
                Err(e),
            ) && ok(e)) by {
                assert(items.drop_last()[j] == items[j]);
            }
        }
        lemma_successors_of_errors(items.drop_last(), ok);
        assert(items[items.len() - 1] matches Some(Err(_)));
    }
}

proof fn lemma_any_from_halts(items: Seq<Option<Result<StateV, StepError>>>, k: int)
    requires
        0 <= k,
        all_errors(items, |e: StepError| is_halt(e)),
    ensures
        any_from(items, StepError::Stuck, k) == Some(false),
    decreases items.len() - k,
{
    if k < items.len() {
        assert(items[k] matches Some(Err(e)) && is_halt(e));
        lemma_any_from_halts(items, k + 1);
    }
}

proof fn lemma_all_from_stuck_or_halt(items: Seq<Option<Result<StateV, StepError>>>, k: int)
    requires
        0 <= k,
        all_errors(items, |e: StepError| is_halt(e)),
    ensures
        all_from(items, |e: StepError| is_stuck_or_halt(e), k) == Some(true),
    decreases items.len() - k,
{
    if k < items.len() {
        assert(items[k] matches Some(Err(e)) && is_halt(e));
        lemma_all_from_stuck_or_halt(items, k + 1);
    }
}

/// A terminated state has no successors.
pub proof fn law_terminated_has_no_successors(p: Program, s: StateV)
    requires
        terminated_spec(p, s) == Some(true),
    ensures
        step_spec(p, s) == Some(Seq::<StateV>::empty()),
{
    let items = step_items(p, s)->0;
    lemma_all_from_errors(items, |e: StepError| is_halt(e), 0);
    lemma_successors_of_errors(items, |e: StepError| is_halt(e));
}

/// A stuck state has no successors.
pub proof fn law_stuck_has_no_successors(p: Program, s: StateV)
    requires
        stuck_spec(p, s) == Some(true),
    ensures
        step_spec(p, s) == Some(Seq::<StateV>::empty()),
{
    let items = step_items(p, s)->0;
    lemma_all_from_errors(items, |e: StepError| is_stuck_or_halt(e), 0);
    lemma_successors_of_errors(items, |e: StepError| is_stuck_or_halt(e));
}

/// No state is both terminated and stuck.
pub proof fn law_terminated_is_not_stuck(p: Program, s: StateV)
    requires
        terminated_spec(p, s) == Some(true),
    ensures
        stuck_spec(p, s) == Some(false),
{
    let items = step_items(p, s)->0;
    lemma_all_from_errors(items, |e: StepError| is_halt(e), 0);
    assert(all_errors(items, |e: StepError| is_halt(e)));
    lemma_any_from_halts(items, 0);
    lemma_all_from_stuck_or_halt(items, 0);
}

// ---------------------------------------------------------------------------
// A state is terminated exactly when every process waits at a `Halt`.

/// The instruction at `x` exists and is a `Halt`.
pub open(crate) spec fn halted_at(p: Program, x: u32) -> bool {
    x < p.instrs@.len() && p.instrs@[x as int] is Halt
}

/// Every process waits at a `Halt`.
pub open(crate) spec fn all_halted(p: Program, st: StateV) -> bool {
    forall|i: int| 0 <= i < st.ptrs.len() ==> #[trigger] halted_at(p, st.ptrs[i])
}

proof fn lemma_errors_split(
    a: Seq<Option<Result<StateV, StepError>>>,
    b: Seq<Option<Result<StateV, StepError>>>,
    ok: spec_fn(StepError) -> bool,
)
    ensures
        all_errors(a + b, ok) <==> all_errors(a, ok) && all_errors(b, ok),
{
    if all_errors(a + b, ok) {
        assert forall|j: int| 0 <= j < a.len() implies (#[trigger] a[j] matches Some(Err(e)) && ok(e)) by {
            assert((a + b)[j] == a[j]);
        }
        assert forall|j: int| 0 <= j < b.len() implies (#[trigger] b[j] matches Some(Err(e)) && ok(e)) by {
            assert((a + b)[j + a.len()] == b[j]);
        }
    }
    if all_errors(a, ok) && all_errors(b, ok) {
        assert forall|j: int| 0 <= j < (a + b).len() implies (#[trigger] (a + b)[j] matches Some(Err(e)) && ok(e)) by {
            if j < a.len() {
                assert((a + b)[j] == a[j]);
            } else {
                assert((a + b)[j] == b[j - a.len()]);
            }
        }
    }
}

proof fn lemma_regular_items_halted(p: Program, s: StateV, k: int)
    requires
        0 <= k <= s.ptrs.len(),
        all_errors(regular_items(p, s, k), |e: StepError| is_halt(e)),
    ensures
        forall|i: int| 0 <= i < k ==> #[trigger] halted_at(p, s.ptrs[i]),
    decreases k,
{
    if k > 0 {
        let res = step_exe(p, s, k - 1);
        let its = items_of(p, res);
        lemma_errors_split(regular_items(p, s, k - 1), its, |e: StepError| is_halt(e));
        lemma_regular_items_halted(p, s, k - 1);
        lemma_step_at_halt(p, s, s.ptrs[k - 1]);
        lemma_step_at_nonempty(p, s, s.ptrs[k - 1]);
        assert(its.len() > 0);
        assert(its[0] matches Some(Err(e)) && is_halt(e));
        assert(halted_at(p, s.ptrs[k - 1]));
    }
}

proof fn lemma_regular_items_all_halt(p: Program, s: StateV, k: int)
    requires
        0 <= k <= s.ptrs.len(),
        all_halted(p, s),
    ensures
        all_errors(regular_items(p, s, k), |e: StepError| is_halt(e)),
    decreases k,
{
    if k > 0 {
        lemma_regular_items_all_halt(p, s, k - 1);
        assert(halted_at(p, s.ptrs[k - 1]));
        let its = items_of(p, step_exe(p, s, k - 1));
        assert(its =~= seq![Some(Err(StepError::Halt))]);
        assert(all_errors(its, |e: StepError| is_halt(e)));
        lemma_errors_split(regular_items(p, s, k - 1), its, |e: StepError| is_halt(e));
    }
}

proof fn lemma_pairs_from_halted(p: Program, s: StateV, i: int, j: int, acc: Seq<StateV>)
    requires
        0 <= i < s.ptrs.len(),
        all_halted(p, s),
    ensures
        pairs_from(p, s, i, j, acc) == Some(Ok::<Seq<StateV>, StepError>(acc)),
    decreases s.ptrs.len() - j,
{
    if 0 <= j < s.ptrs.len() {
        assert(halted_at(p, s.ptrs[i]));
        assert(halted_at(p, s.ptrs[j]));
        lemma_pairs_from_halted(p, s, i, j + 1, acc);
    }
}

proof fn lemma_sync_from_halted(p: Program, s: StateV, i: int, acc: Seq<StateV>)
    requires
        0 <= i,
        all_halted(p, s),
    ensures
        sync_from(p, s, i, acc) == Some(Ok::<Seq<StateV>, StepError>(acc)),
    decreases s.ptrs.len() - i,
{
    if i < s.ptrs.len() {
        assert(halted_at(p, s.ptrs[i]));
        assert(acc + seq![] =~= acc);
        lemma_pairs_from_halted(p, s, i, 0, acc);
        lemma_sync_from_halted(p, s, i + 1, acc);
    }
}

proof fn lemma_all_from_halt(items: Seq<Option<Result<StateV, StepError>>>, k: int)
    requires
        0 <= k,
        all_errors(items, |e: StepError| is_halt(e)),
    ensures
        all_from(items, |e: StepError| is_halt(e), k) == Some(true),
    decreases items.len() - k,
{
    if k < items.len() {
        assert(items[k] matches Some(Err(e)) && is_halt(e));
        lemma_all_from_halt(items, k + 1);
    }
}

/// A state is terminated exactly when every process waits at a `Halt`
/// instruction.
pub proof fn law_terminated_iff_halted(p: Program, s: StateV)
    ensures
        terminated_spec(p, s) == Some(true) <==> all_halted(p, s),
{
    let n = s.ptrs.len() as int;
    if terminated_spec(p, s) == Some(true) {
        let items = step_items(p, s)->0;
        lemma_all_from_errors(items, |e: StepError| is_halt(e), 0);
        let r = sync_steps(p, s)->0;
        lemma_errors_split(regular_items(p, s, n), items_of(p, Some(r)), |e: StepError| is_halt(e));
        lemma_regular_items_halted(p, s, n);
    }
    if all_halted(p, s) {
        lemma_sync_from_halted(p, s, 0, seq![]);
        lemma_regular_items_all_halt(p, s, n);
        let empty: Seq<StateV> = seq![];
        assert(items_of(p, Some(Ok(empty))) =~= seq![]);
        assert(regular_items(p, s, n) + items_of(p, Some(Ok(empty))) =~= regular_items(p, s, n));
        lemma_all_from_halt(step_items(p, s)->0, 0);
    }
}

// ---------------------------------------------------------------------------
// A state is stuck exactly when no synchronous transition is possible, every
// process is halted or blocked, and some process is blocked.

/// Process `i` is blocked: its instruction can do nothing now.
pub open(crate) spec fn waits_at(p: Program, s: StateV, i: int) -> bool {
    step_at(p, s, s.ptrs[i]) == Some(Err::<Seq<(MemV, u32)>, StepError>(StepError::Stuck))
}

/// Process `i` waits at a `Halt`, or is blocked.
pub open(crate) spec fn idle_at(p: Program, s: StateV, i: int) -> bool {
    halted_at(p, s.ptrs[i]) || waits_at(p, s, i)
}

proof fn lemma_items_of_errors(p: Program, res: Option<Result<Seq<StateV>, StepError>>, ok: spec_fn(StepError) -> bool)
    requires
        all_errors(items_of(p, res), ok),
        res matches Some(Ok(v)) ==> v.len() > 0,
    ensures
        res matches Some(Err(e)) && ok(e),
{
    let its = items_of(p, res);
    assert(its.len() > 0);
    assert(its[0] matches Some(Err(e)) && ok(e));
}

proof fn lemma_regular_items_idle(p: Program, s: StateV, k: int)
    requires
        0 <= k <= s.ptrs.len(),
        all_errors(regular_items(p, s, k), |e: StepError| is_stuck_or_halt(e)),
    ensures
        forall|i: int| 0 <= i < k ==> #[trigger] idle_at(p, s, i),
    decreases k,
{
    if k > 0 {
        let res = step_exe(p, s, k - 1);
        let its = items_of(p, res);
        lemma_errors_split(regular_items(p, s, k - 1), its, |e: StepError| is_stuck_or_halt(e));
        lemma_regular_items_idle(p, s, k - 1);
        lemma_step_at_halt(p, s, s.ptrs[k - 1]);
        lemma_step_at_nonempty(p, s, s.ptrs[k - 1]);
        lemma_items_of_errors(p, res, |e: StepError| is_stuck_or_halt(e));
        assert(idle_at(p, s, k - 1));
    }
}

proof fn lemma_regular_stuck_found(p: Program, s: StateV, k: int, j: int)
    requires
        0 <= k <= s.ptrs.len(),
        all_errors(regular_items(p, s, k), |e: StepError| is_stuck_or_halt(e)),
        0 <= j < regular_items(p, s, k).len(),
        regular_items(p, s, k)[j] == Some(Err::<StateV, StepError>(StepError::Stuck)),
    ensures
        exists|i: int| 0 <= i < k && #[trigger] waits_at(p, s, i),
    decreases k,
{
    if k > 0 {
        let prev = regular_items(p, s, k - 1);
        let res = step_exe(p, s, k - 1);
        let its = items_of(p, res);
        lemma_errors_split(prev, its, |e: StepError| is_stuck_or_halt(e));
        if j < prev.len() {
            assert((prev + its)[j] == prev[j]);
            lemma_regular_stuck_found(p, s, k - 1, j);
        } else {
            assert((prev + its)[j] == its[j - prev.len()]);
            lemma_step_at_nonempty(p, s, s.ptrs[k - 1]);
            lemma_items_of_errors(p, res, |e: StepError| is_stuck_or_halt(e));
            assert(waits_at(p, s, k - 1));
        }
    }
}

proof fn lemma_any_from_found(items: Seq<Option<Result<StateV, StepError>>>, e: StepError, k: int)
    requires
        0 <= k,
        any_from(items, e, k) == Some(true),
    ensures
        exists|j: int| k <= j < items.len() && items[j] == Some(Err::<StateV, StepError>(e)),
    decreases items.len() - k,
{
    if k < items.len() {
        if items[k] != Some(Err::<StateV, StepError>(e)) {
            lemma_any_from_found(items, e, k + 1);
        }
    }
}

proof fn lemma_regular_items_all_idle(p: Program, s: StateV, k: int)
    requires
        0 <= k <= s.ptrs.len(),
        forall|i: int| 0 <= i < s.ptrs.len() ==> #[trigger] idle_at(p, s, i),
    ensures
        all_errors(regular_items(p, s, k), |e: StepError| is_stuck_or_halt(e)),
    decreases k,
{
    if k > 0 {
        lemma_regular_items_all_idle(p, s, k - 1);
        assert(idle_at(p, s, k - 1));
        let its = items_of(p, step_exe(p, s, k - 1));
        assert(all_errors(its, |e: StepError| is_stuck_or_halt(e))) by {
            assert(its.len() == 1);
        }
        lemma_errors_split(regular_items(p, s, k - 1), its, |e: StepError| is_stuck_or_halt(e));
    }
}

proof fn lemma_regular_has_stuck(p: Program, s: StateV, k: int, i: int)
    requires
        0 <= i < k <= s.ptrs.len(),
        waits_at(p, s, i),
    ensures
        exists|j: int|
            0 <= j < regular_items(p, s, k).len() && regular_items(p, s, k)[j] == Some(
                Err::<StateV, StepError>(StepError::Stuck),
            ),
    decreases k,
{
    let prev = regular_items(p, s, k - 1);
    let its = items_of(p, step_exe(p, s, k - 1));
    let all = regular_items(p, s, k);
    assert(all == prev + its);
    if i < k - 1 {
        lemma_regular_has_stuck(p, s, k - 1, i);
        let j = choose|j: int| 0 <= j < prev.len() && prev[j] == Some(Err::<StateV, StepError>(StepError::Stuck));
        assert(all[j] == prev[j]);
    } else {
        assert(its[0] == Some(Err::<StateV, StepError>(StepError::Stuck)));
        assert(all[prev.len() as int] == its[0]);
    }
}

proof fn lemma_any_from_true(items: Seq<Option<Result<StateV, StepError>>>, ok: spec_fn(StepError) -> bool, e: StepError, k: int, j: int)
    requires
        0 <= k <= j < items.len(),
        all_errors(items, ok),
        items[j] == Some(Err::<StateV, StepError>(e)),
    ensures
        any_from(items, e, k) == Some(true),
    decreases j - k,
{
    if k < j {
        assert(items[k] matches Some(Err(_)));
        if items[k] != Some(Err::<StateV, StepError>(e)) {
            lemma_any_from_true(items, ok, e, k + 1, j);
        }
    }
}

proof fn lemma_all_from_stuck_or_halt_true(items: Seq<Option<Result<StateV, StepError>>>, k: int)
    requires
        0 <= k,
        all_errors(items, |e: StepError| is_stuck_or_halt(e)),
    ensures
        all_from(items, |e: StepError| is_stuck_or_halt(e), k) == Some(true),
    decreases items.len() - k,
{
    if k < items.len() {
        assert(items[k] matches Some(Err(e)) && is_stuck_or_halt(e));
        lemma_all_from_stuck_or_halt_true(items, k + 1);
    }
}

/// A state is stuck exactly when no synchronous transition is possible
/// (they give no state and no error), every process waits at a `Halt` or is
/// blocked, and some process is blocked.
pub proof fn law_stuck_iff_blocked(p: Program, s: StateV)
    ensures
        stuck_spec(p, s) == Some(true) <==> {
            &&& sync_steps(p, s) == Some(Ok::<Seq<StateV>, StepError>(seq![]))
            &&& forall|i: int| 0 <= i < s.ptrs.len() ==> #[trigger] idle_at(p, s, i)
            &&& exists|i: int| 0 <= i < s.ptrs.len() && #[trigger] waits_at(p, s, i)
        },
{
    let n = s.ptrs.len() as int;
    let soh = |e: StepError| is_stuck_or_halt(e);
    lemma_sync_steps_calm(p, s);
    if stuck_spec(p, s) == Some(true) {
        let items = step_items(p, s)->0;
        let r = sync_steps(p, s)->0;
        let reg = regular_items(p, s, n);
        let tail = items_of(p, Some(r));
        lemma_all_from_errors(items, soh, 0);
        lemma_errors_split(reg, tail, soh);
        lemma_regular_items_idle(p, s, n);
        match r {
            Ok(v) => {
                if v.len() > 0 {
                    lemma_items_of_errors(p, Some(r), soh);
                }
                assert(v =~= seq![]);
                assert(tail.len() == 0);
                assert(items =~= reg);
                lemma_any_from_found(items, StepError::Stuck, 0);
                let j = choose|j: int| 0 <= j < items.len() && items[j] == Some(Err::<StateV, StepError>(StepError::Stuck));
                lemma_regular_stuck_found(p, s, n, j);
            },
            Err(e) => {
                lemma_items_of_errors(p, Some(r), soh);
            },
        }
    }
    if sync_steps(p, s) == Some(Ok::<Seq<StateV>, StepError>(seq![])) && (forall|i: int|
        0 <= i < s.ptrs.len() ==> #[trigger] idle_at(p, s, i)) && (exists|i: int|
        0 <= i < s.ptrs.len() && #[trigger] waits_at(p, s, i)) {
        let empty: Seq<StateV> = seq![];
        let reg = regular_items(p, s, n);
        assert(items_of(p, Some(Ok(empty))) =~= seq![]);
        assert(reg + items_of(p, Some(Ok(empty))) =~= reg);
        let items = step_items(p, s)->0;
        assert(items == reg);
        lemma_regular_items_all_idle(p, s, n);
        lemma_all_from_stuck_or_halt_true(items, 0);
        let i = choose|i: int| 0 <= i < s.ptrs.len() && #[trigger] waits_at(p, s, i);
        lemma_regular_has_stuck(p, s, n, i);
        let j = choose|j: int| 0 <= j < reg.len() && reg[j] == Some(Err::<StateV, StepError>(StepError::Stuck));
        lemma_any_from_true(items, soh, StepError::Stuck, 0, j);
    }
}

// ---------------------------------------------------------------------------
// Successors are at rest: no process of a successor waits at a `Goto` or a
// `Nop`.

/// The instruction at `x` exists and is neither a `Goto` nor a `Nop`.
pub open(crate) spec fn at_rest(p: Program, x: u32) -> bool {
    &&& x < p.instrs@.len()
    &&& !(p.instrs@[x as int] is Goto)
    &&& !(p.instrs@[x as int] is Nop)
}

pub open(crate) spec fn all_at_rest(p: Program, st: StateV) -> bool {
    forall|i: int| 0 <= i < st.ptrs.len() ==> #[trigger] at_rest(p, st.ptrs[i])
}

proof fn lemma_follow_at_rest(p: Program, x: u32)
    requires
        program_flow_ok(p),
        follow(p, x) is Some,
    ensures
        at_rest(p, follow(p, x)->0),
    decreases program_jump_measure(p, x),
{
    if x < p.instrs@.len() {
        assert(instr_flow_ok(p.instrs@, x as int));
        match p.instrs@[x as int] {
            Instr::Goto(q) => lemma_follow_at_rest(p, q.0),
            Instr::Nop => lemma_follow_at_rest(p, (x + 1) as u32),
            _ => {},
        }
    }
}

/// Every item that is a state is at rest.
pub open(crate) spec fn items_at_rest(p: Program, items: Seq<Option<Result<StateV, StepError>>>) -> bool {
    forall|j: int| 0 <= j < items.len() ==> (#[trigger] items[j] matches Some(Ok(x)) ==> all_at_rest(p, x))
}

proof fn lemma_settled_at_rest(p: Program, st: StateV)
    requires
        program_flow_ok(p),
    ensures
        settled(p, st) matches Some(Ok(x)) ==> all_at_rest(p, x),
{
    if let Some(x) = follow_state(p, st) {
        assert forall|i: int| 0 <= i < x.ptrs.len() implies #[trigger] at_rest(p, x.ptrs[i]) by {
            assert(follow(p, st.ptrs[i]) is Some);
            lemma_follow_at_rest(p, st.ptrs[i]);
        }
    }
}

proof fn lemma_items_of_at_rest(p: Program, r: Option<Result<Seq<StateV>, StepError>>)
    requires
        program_flow_ok(p),
    ensures
        items_at_rest(p, items_of(p, r)),
{
    if let Some(Ok(v)) = r {
        assert forall|j: int| 0 <= j < items_of(p, r).len() implies (#[trigger] items_of(p, r)[j] matches Some(
            Ok(x),
        ) ==> all_at_rest(p, x)) by {
            lemma_settled_at_rest(p, v[j]);
        }
    }
}

proof fn lemma_concat_at_rest(p: Program, a: Seq<Option<Result<StateV, StepError>>>, b: Seq<Option<Result<StateV, StepError>>>)
    requires
        items_at_rest(p, a),
        items_at_rest(p, b),
    ensures
        items_at_rest(p, a + b),
{
    assert forall|j: int| 0 <= j < (a + b).len() implies (#[trigger] (a + b)[j] matches Some(Ok(x)) ==> all_at_rest(
        p,
        x,
    )) by {
        if j < a.len() {
            assert((a + b)[j] == a[j]);
        } else {
            assert((a + b)[j] == b[j - a.len()]);
        }
    }
}

proof fn lemma_regular_items_at_rest(p: Program, s: StateV, k: int)
    requires
        program_flow_ok(p),
    ensures
        items_at_rest(p, regular_items(p, s, k)),
    decreases k,
{
    if k > 0 && k <= s.ptrs.len() {
        lemma_regular_items_at_rest(p, s, k - 1);
        lemma_items_of_at_rest(p, crate::semantics::step_exe(p, s, k - 1));
        lemma_concat_at_rest(p, regular_items(p, s, k - 1), items_of(p, crate::semantics::step_exe(p, s, k - 1)));
    }
}

proof fn lemma_successors_at_rest(p: Program, items: Seq<Option<Result<StateV, StepError>>>)
    requires
        items_at_rest(p, items),
    ensures
        successors_of(items) matches Some(v) ==> forall|k: int| 0 <= k < v.len() ==> all_at_rest(p, #[trigger] v[k]),
    decreases items.len(),
{
    if items.len() > 0 {
        assert(items_at_rest(p, items.drop_last())) by {
            assert forall|j: int| 0 <= j < items.drop_last().len() implies (#[trigger] items.drop_last()[j] matches Some(
                Ok(x),
            ) ==> all_at_rest(p, x)) by {
                assert(items.drop_last()[j] == items[j]);
            }
        }
        lemma_successors_at_rest(p, items.drop_last());
        assert(items[items.len() - 1] matches Some(Ok(x)) ==> all_at_rest(p, x));
    }
}

/// In every successor of a state, every process waits at an instruction
/// that is neither a `Goto` nor a `Nop`.
pub proof fn law_successors_at_rest(p: Program, s: StateV)
    requires
        program_flow_ok(p),
        step_spec(p, s) is Some,
    ensures
        forall|k: int|
            0 <= k < step_spec(p, s)->0.len() ==> all_at_rest(p, #[trigger] step_spec(p, s)->0[k]),
{
    let items = step_items(p, s)->0;
    let r = crate::semantics::sync_steps(p, s)->0;
    lemma_regular_items_at_rest(p, s, s.ptrs.len() as int);
    lemma_items_of_at_rest(p, Some(r));
    lemma_concat_at_rest(p, regular_items(p, s, s.ptrs.len() as int), items_of(p, Some(r)));
    lemma_successors_at_rest(p, items);
}

// ---------------------------------------------------------------------------
// A step never adds or removes a process, a variable slot, a tuple space or
// a channel.

/// Every state in `v` is alike `r`.
pub open spec fn all_alike(v: Seq<StateV>, r: StateV) -> bool {
    forall|k: int| 0 <= k < v.len() ==> alike(#[trigger] v[k], r)
}

pub open spec fn result_alike(res: Option<Result<Seq<StateV>, StepError>>, r: StateV) -> bool {
    res matches Some(Ok(v)) ==> all_alike(v, r)
}

proof fn lemma_push_alike(v: Seq<StateV>, x: StateV, r: StateV)
    requires
        all_alike(v, r),
        alike(x, r),
    ensures
        all_alike(v.push(x), r),
{
    assert forall|k: int| 0 <= k < v.push(x).len() implies alike(#[trigger] v.push(x)[k], r) by {
        if k < v.len() {
            assert(v.push(x)[k] == v[k]);
        }
    }
}

proof fn lemma_concat_alike(a: Seq<StateV>, b: Seq<StateV>, r: StateV)
    requires
        all_alike(a, r),
        all_alike(b, r),
    ensures
        all_alike(a + b, r),
{
    assert forall|k: int| 0 <= k < (a + b).len() implies alike(#[trigger] (a + b)[k], r) by {
        if k < a.len() {
            assert((a + b)[k] == a[k]);
        } else {
            assert((a + b)[k] == b[k - a.len()]);
        }
    }
}

proof fn lemma_add_handover_alike(
    h: Option<Result<Option<StateV>, StepError>>,
    acc: Seq<StateV>,
    r: StateV,
)
    requires
        all_alike(acc, r),
        h matches Some(Ok(Some(st))) ==> alike(st, r),
    ensures
        result_alike(add_handover(h, acc), r),
{
    if let Some(Ok(Some(st))) = h {
        lemma_push_alike(acc, st, r);
    }
}

proof fn lemma_handover_ptrs(p: Program, s: StateV, expr: AExpr, target: Target, ptrs: Seq<u32>)
    ensures
        handover(p, s, expr, target, ptrs) matches Some(Ok(Some(st))) ==> st.ptrs == ptrs && mem_alike(
            st.mem,
            s.mem,
        ),
{
}

proof fn lemma_pair_branches_alike(
    p: Program,
    s: StateV,
    i: int,
    j: int,
    ci: Seq<(CG, InstrPtr)>,
    cj: Seq<(CG, InstrPtr)>,
    a: int,
    b: int,
    acc: Seq<StateV>,
)
    requires
        0 <= i < s.ptrs.len(),
        0 <= j < s.ptrs.len(),
        all_alike(acc, s),
    ensures
        result_alike(pair_branches(p, s, i, j, ci, cj, a, b, acc), s),
    decreases ci.len() - a, cj.len() - b,
{
    if a < 0 || a >= ci.len() {
    } else if b < 0 || b >= cj.len() {
        lemma_pair_branches_alike(p, s, i, j, ci, cj, a + 1, 0, acc);
    } else {
        let h = match (ci[a].0, cj[b].0) {
            (CG::Send(c1, expr), CG::Receive(c2, t)) => if crate::semantics::same_channel(c1, c2) {
                handover(p, s, expr, t, s.ptrs.update(i, ci[a].1.0).update(j, cj[b].1.0))
            } else {
                Some(Ok(None))
            },
            _ => Some(Ok(None)),
        };
        if let (CG::Send(c1, expr), CG::Receive(c2, t)) = (ci[a].0, cj[b].0) {
            lemma_handover_ptrs(p, s, expr, t, s.ptrs.update(i, ci[a].1.0).update(j, cj[b].1.0));
        }
        lemma_add_handover_alike(h, acc, s);
        if let Some(Ok(acc2)) = add_handover(h, acc) {
            lemma_pair_branches_alike(p, s, i, j, ci, cj, a, b + 1, acc2);
        }
    }
}

proof fn lemma_pair_send_branch_alike(
    p: Program,
    s: StateV,
    i: int,
    j: int,
    c1: ChannelName,
    expr: AExpr,
    cj: Seq<(CG, InstrPtr)>,
    b: int,
    acc: Seq<StateV>,
)
    requires
        0 <= i < s.ptrs.len(),
        0 <= j < s.ptrs.len(),
        all_alike(acc, s),
    ensures
        result_alike(pair_send_branch(p, s, i, j, c1, expr, cj, b, acc), s),
    decreases cj.len() - b,
{
    if 0 <= b < cj.len() {
        let h = match cj[b].0 {
            CG::Receive(c2, t) => if crate::semantics::same_channel(c1, c2) {
                handover(p, s, expr, t, s.ptrs.update(i, crate::semantics::bumped(s.ptrs[i])).update(j, cj[b].1.0))
            } else {
                Some(Ok(None))
            },
            _ => Some(Ok(None)),
        };
        if let CG::Receive(c2, t) = cj[b].0 {
            lemma_handover_ptrs(p, s, expr, t, s.ptrs.update(i, crate::semantics::bumped(s.ptrs[i])).update(j, cj[b].1.0));
        }
        lemma_add_handover_alike(h, acc, s);
        if let Some(Ok(acc2)) = add_handover(h, acc) {
            lemma_pair_send_branch_alike(p, s, i, j, c1, expr, cj, b + 1, acc2);
        }
    }
}

proof fn lemma_pair_branch_receive_alike(
    p: Program,
    s: StateV,
    i: int,
    j: int,
    ci: Seq<(CG, InstrPtr)>,
    c2: ChannelName,
    target: Target,
    a: int,
    acc: Seq<StateV>,
)
    requires
        0 <= i < s.ptrs.len(),
        0 <= j < s.ptrs.len(),
        all_alike(acc, s),
    ensures
        result_alike(pair_branch_receive(p, s, i, j, ci, c2, target, a, acc), s),
    decreases ci.len() - a,
{
    if 0 <= a < ci.len() {
        let h = match ci[a].0 {
            CG::Send(c1, expr) => if crate::semantics::same_channel(c1, c2) {
                handover(p, s, expr, target, s.ptrs.update(i, ci[a].1.0).update(j, crate::semantics::bumped(s.ptrs[j])))
            } else {
                Some(Ok(None))
            },
            _ => Some(Ok(None)),
        };
        if let CG::Send(c1, expr) = ci[a].0 {
            lemma_handover_ptrs(p, s, expr, target, s.ptrs.update(i, ci[a].1.0).update(j, crate::semantics::bumped(s.ptrs[j])));
        }
        lemma_add_handover_alike(h, acc, s);
        if let Some(Ok(acc2)) = add_handover(h, acc) {
            lemma_pair_branch_receive_alike(p, s, i, j, ci, c2, target, a + 1, acc2);
        }
    }
}

proof fn lemma_pair_steps_alike(p: Program, s: StateV, i: int, j: int, acc: Seq<StateV>)
    requires
        0 <= i < s.ptrs.len(),
        0 <= j < s.ptrs.len(),
        all_alike(acc, s),
    ensures
        result_alike(pair_steps(p, s, i, j, acc), s),
{
    match (crate::semantics::instr_of(p, s, i), crate::semantics::instr_of(p, s, j)) {
        (Some(Instr::SyncSend { channel: c1, expr }), Some(Instr::SyncReceive { channel: c2, target })) => {
            let ptrs = s.ptrs.update(i, crate::semantics::bumped(s.ptrs[i])).update(
                j,
                crate::semantics::bumped(s.ptrs[j]),
            );
            lemma_handover_ptrs(p, s, expr, target, ptrs);
            lemma_add_handover_alike(handover(p, s, expr, target, ptrs), acc, s);
        },
        (Some(Instr::Branch { choices: ci, .. }), Some(Instr::Branch { choices: cj, .. })) => {
            lemma_pair_branches_alike(p, s, i, j, ci@, cj@, 0, 0, acc);
        },
        (Some(Instr::SyncSend { channel: c1, expr }), Some(Instr::Branch { choices: cj, .. })) => {
            lemma_pair_send_branch_alike(p, s, i, j, c1, expr, cj@, 0, acc);
        },
        (Some(Instr::Branch { choices: ci, .. }), Some(Instr::SyncReceive { channel: c2, target })) => {
            lemma_pair_branch_receive_alike(p, s, i, j, ci@, c2, target, 0, acc);
        },
        _ => {},
    }
}

proof fn lemma_pairs_from_alike(p: Program, s: StateV, i: int, j: int, acc: Seq<StateV>)
    requires
        0 <= i < s.ptrs.len(),
        all_alike(acc, s),
    ensures
        result_alike(pairs_from(p, s, i, j, acc), s),
    decreases s.ptrs.len() - j,
{
    if j < 0 || j >= s.ptrs.len() {
    } else if j == i {
        lemma_pairs_from_alike(p, s, i, j + 1, acc);
    } else {
        lemma_pair_steps_alike(p, s, i, j, acc);
        if let Some(Ok(acc2)) = pair_steps(p, s, i, j, acc) {
            lemma_pairs_from_alike(p, s, i, j + 1, acc2);
        }
    }
}

proof fn lemma_deliver_alike(
    p: Program,
    s: StateV,
    value: i32,
    rs: Seq<(int, Target, Option<u32>)>,
    k: int,
    ns: StateV,
)
    requires
        alike(ns, s),
    ensures
        deliver(p, s, value, rs, k, ns) matches Some(Ok(x)) ==> alike(x, s),
    decreases rs.len() - k,
{
    if 0 <= k < rs.len() {
        let (j, target, bp) = rs[k];
        if let Some(Ok(ix)) = crate::semantics::target_index(p, s, target) {
            if !(ix >= ns.mem.data.len() || j < 0 || j >= ns.ptrs.len()) {
                let next = match bp {
                    Some(t) => t,
                    None => crate::semantics::bumped(ns.ptrs[j]),
                };
                lemma_deliver_alike(
                    p,
                    s,
                    value,
                    rs,
                    k + 1,
                    StateV {
                        ptrs: ns.ptrs.update(j, next),
                        mem: crate::semantics::with_data(ns.mem, ns.mem.data.update(ix as int, value)),
                    },
                );
            }
        }
    }
}

proof fn lemma_broadcast_alike(p: Program, s: StateV, i: int, c: ChannelName, k: i32, expr: AExpr)
    requires
        0 <= i < s.ptrs.len(),
    ensures
        result_alike(broadcast_steps(p, s, i, c, k, expr), s),
{
    if let Some(Ok(value)) = crate::semantics::aeval(p, s, expr) {
        if let Some(rs) = crate::semantics::receivers_from(p, s, i, c, 0, seq![]) {
            lemma_deliver_alike(p, s, value, rs, 0, s);
        }
    }
}

proof fn lemma_gather_into_alike(
    senders: Seq<(int, i32, Option<u32>)>,
    perm: Seq<usize>,
    base: u32,
    len: u32,
    idx: int,
    ns: StateV,
)
    ensures
        gather_into(senders, perm, base, len, idx, ns) matches Some(x) ==> alike(x, ns),
    decreases perm.len() - idx,
{
    if 0 <= idx < perm.len() && perm[idx] < senders.len() {
        let (j, value, bp) = senders[perm[idx] as int];
        let written = if idx < len {
            if base + idx < ns.mem.data.len() {
                Some(crate::semantics::with_data(ns.mem, ns.mem.data.update(base + idx, value)))
            } else {
                None
            }
        } else {
            Some(ns.mem)
        };
        if let Some(m) = written {
            if 0 <= j < ns.ptrs.len() {
                let next = match bp {
                    Some(t) => t,
                    None => crate::semantics::bumped(ns.ptrs[j]),
                };
                lemma_gather_into_alike(senders, perm, base, len, idx + 1, StateV { ptrs: ns.ptrs.update(j, next), mem: m });
            }
        }
    }
}

proof fn lemma_gather_orderings_alike(
    p: Program,
    s: StateV,
    i: int,
    target: Target,
    senders: Seq<(int, i32, Option<u32>)>,
    perms: Seq<Seq<usize>>,
    base: u32,
    len: u32,
    q: int,
    acc: Seq<StateV>,
)
    requires
        all_alike(acc, s),
    ensures
        result_alike(gather_orderings(p, s, i, target, senders, perms, base, len, q, acc), s),
    decreases perms.len() - q,
{
    if 0 <= q < perms.len() {
        lemma_gather_into_alike(senders, perms[q], base, len, 0, s);
        if let Some(ns) = gather_into(senders, perms[q], base, len, 0, s) {
            if let Some(Ok(ix)) = crate::semantics::target_index(p, s, target) {
                if !(ix >= ns.mem.data.len() || i < 0 || i >= s.ptrs.len()) {
                    let count = (if perms[q].len() <= len {
                        perms[q].len() as int
                    } else {
                        len as int
                    }) as i32;
                    let st = StateV {
                        ptrs: ns.ptrs.update(i, crate::semantics::bumped(s.ptrs[i])),
                        mem: crate::semantics::with_data(ns.mem, ns.mem.data.update(ix as int, count)),
                    };
                    lemma_push_alike(acc, st, s);
                    lemma_gather_orderings_alike(p, s, i, target, senders, perms, base, len, q + 1, acc.push(st));
                }
            }
        }
    }
}

proof fn lemma_collective_alike(p: Program, s: StateV, i: int)
    ensures
        result_alike(collective_steps(p, s, i), s),
{
    match crate::semantics::instr_of(p, s, i) {
        Some(Instr::Broadcast { channel, k, expr }) => lemma_broadcast_alike(p, s, i, channel, k, expr),
        Some(Instr::Gather { channel, k, array, target }) => {
            let arr = array.0@;
            if !(target matches Target::Array(a, _) && a.0@ == arr) {
                if let Some(slot) = crate::semantics::array_slot(p, arr) {
                    let base = p.targets@[slot].base_index;
                    let len = p.targets@[slot].length;
                    if let Some(Ok(senders)) = crate::semantics::senders_from(p, s, i, channel, 0, seq![]) {
                        if k >= 0 && senders.len() >= k {
                            lemma_gather_orderings_alike(
                                p,
                                s,
                                i,
                                target,
                                senders,
                                crate::perms::index_permutations(senders.len() as usize),
                                base,
                                len,
                                0,
                                seq![],
                            );
                        }
                    }
                }
            }
            assert(result_alike(gather_steps(p, s, i, channel, k, arr, target), s));
        },
        _ => {},
    }
}

proof fn lemma_sync_from_alike(p: Program, s: StateV, i: int, acc: Seq<StateV>)
    requires
        all_alike(acc, s),
    ensures
        result_alike(sync_from(p, s, i, acc), s),
    decreases s.ptrs.len() - i,
{
    if 0 <= i < s.ptrs.len() {
        lemma_collective_alike(p, s, i);
        if let Some(Ok(ts)) = collective_steps(p, s, i) {
            lemma_concat_alike(acc, ts, s);
            lemma_pairs_from_alike(p, s, i, 0, acc + ts);
            if let Some(Ok(acc2)) = pairs_from(p, s, i, 0, acc + ts) {
                lemma_sync_from_alike(p, s, i + 1, acc2);
            }
        }
    }
}

/// Every item that is a state is alike `r`.
pub open spec fn items_alike(items: Seq<Option<Result<StateV, StepError>>>, r: StateV) -> bool {
    forall|j: int| 0 <= j < items.len() ==> (#[trigger] items[j] matches Some(Ok(x)) ==> alike(x, r))
}

proof fn lemma_items_of_alike(p: Program, res: Option<Result<Seq<StateV>, StepError>>, r: StateV)
    requires
        result_alike(res, r),
    ensures
        items_alike(items_of(p, res), r),
{
    if let Some(Ok(v)) = res {
        assert forall|j: int| 0 <= j < items_of(p, res).len() implies (#[trigger] items_of(p, res)[j] matches Some(
            Ok(x),
        ) ==> alike(x, r)) by {
            assert(alike(v[j], r));
        }
    }
}

proof fn lemma_items_concat_alike(a: Seq<Option<Result<StateV, StepError>>>, b: Seq<Option<Result<StateV, StepError>>>, r: StateV)
    requires
        items_alike(a, r),
        items_alike(b, r),
    ensures
        items_alike(a + b, r),
{
    assert forall|j: int| 0 <= j < (a + b).len() implies (#[trigger] (a + b)[j] matches Some(Ok(x)) ==> alike(x, r)) by {
        if j < a.len() {
            assert((a + b)[j] == a[j]);
        } else {
            assert((a + b)[j] == b[j - a.len()]);
        }
    }
}

proof fn lemma_regular_items_alike(p: Program, s: StateV, k: int)
    ensures
        items_alike(regular_items(p, s, k), s),
    decreases k,
{
    if k > 0 && k <= s.ptrs.len() {
        lemma_regular_items_alike(p, s, k - 1);
        let res = step_exe(p, s, k - 1);
        lemma_step_at_alike(p, s, s.ptrs[k - 1]);
        if let Some(Ok(v)) = res {
            assert forall|j: int| 0 <= j < v.len() implies alike(#[trigger] v[j], s) by {
                let moves = step_at(p, s, s.ptrs[k - 1])->0->Ok_0;
                assert(v[j].mem == moves[j].0);
            }
        }
        lemma_items_of_alike(p, res, s);
        lemma_items_concat_alike(regular_items(p, s, k - 1), items_of(p, res), s);
    }
}

proof fn lemma_successors_alike(items: Seq<Option<Result<StateV, StepError>>>, r: StateV)
    requires
        items_alike(items, r),
    ensures
        successors_of(items) matches Some(v) ==> all_alike(v, r),
    decreases items.len(),
{
    if items.len() > 0 {
        assert(items_alike(items.drop_last(), r)) by {
            assert forall|j: int| 0 <= j < items.drop_last().len() implies (#[trigger] items.drop_last()[j] matches Some(
                Ok(x),
            ) ==> alike(x, r)) by {
                assert(items.drop_last()[j] == items[j]);
            }
        }
        lemma_successors_alike(items.drop_last(), r);
        if let Some(v) = successors_of(items.drop_last()) {
            if let Some(Ok(x)) = items.last() {
                lemma_push_alike(v, x, r);
            }
        }
    }
}

/// Every successor of a state has as many processes, variable slots, tuple
/// spaces and channels as the state.
pub proof fn law_step_keeps_shape(p: Program, s: StateV)
    requires
        step_spec(p, s) is Some,
    ensures
        forall|k: int| 0 <= k < step_spec(p, s)->0.len() ==> alike(#[trigger] step_spec(p, s)->0[k], s),
{
    let r = sync_steps(p, s)->0;
    lemma_regular_items_alike(p, s, s.ptrs.len() as int);
    lemma_sync_from_alike(p, s, 0, seq![]);
    lemma_items_of_alike(p, Some(r), s);
    lemma_items_concat_alike(regular_items(p, s, s.ptrs.len() as int), items_of(p, Some(r)), s);
    lemma_successors_alike(step_items(p, s)->0, s);
}

} // verus!

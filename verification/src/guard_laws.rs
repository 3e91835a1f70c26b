use vstd::prelude::*;

use crate::ast::{BExpr, LogicOp, OperationP};
use crate::program::{MemV, Program, StateV, StepError};
use crate::semantics::{beval, guard_after, guard_mems, with_mem};

verus! {

// ---------------------------------------------------------------------------
// Guards built with `&&`, `&`, `||` and `|`, and tuple-space predicates used
// as booleans.

/// The memories of `xs`, one list after the other.
pub open spec fn concat_mems(xs: Seq<Seq<MemV>>) -> Seq<MemV>
    decreases xs.len(),
{
    if xs.len() == 0 {
        seq![]
    } else {
        concat_mems(xs.drop_last()) + xs.last()
    }
}

/// The guard `r` evaluated in each memory of `ms`, in the state's processes:
/// `None` where any of these evaluations panics.
pub open spec fn guard_in_each(p: Program, s: StateV, r: BExpr, ms: Seq<MemV>) -> Option<Seq<Seq<MemV>>> {
    if forall|k: int| 0 <= k < ms.len() ==> (#[trigger] guard_mems(p, with_mem(s, ms[k]), r)) is Some {
        Some(Seq::new(ms.len(), |k: int| guard_mems(p, with_mem(s, ms[k]), r)->0))
    } else {
        None
    }
}

/// Evaluating `r` after each memory of `ms` gives, in order, everything
/// that each of those evaluations gives.
pub proof fn law_guard_after_concat(p: Program, s: StateV, r: BExpr, ms: Seq<MemV>)
    ensures
        guard_after(p, s, r, ms) == match guard_in_each(p, s, r, ms) {
            None => None,
            Some(xs) => Some(concat_mems(xs)),
        },
    decreases ms.len(),
{
    if ms.len() > 0 {
        let init = ms.drop_last();
        law_guard_after_concat(p, s, r, init);
        assert forall|k: int| 0 <= k < init.len() implies init[k] == ms[k] by {}
        if guard_in_each(p, s, r, ms) is Some {
            assert forall|k: int| 0 <= k < init.len() implies (#[trigger] guard_mems(p, with_mem(s, init[k]), r)) is Some by {
                assert(guard_mems(p, with_mem(s, ms[k]), r) is Some);
            }
            let xs = guard_in_each(p, s, r, ms)->0;
            let ys = guard_in_each(p, s, r, init)->0;
            assert(xs.drop_last() =~= ys);
            assert(guard_mems(p, with_mem(s, ms[ms.len() - 1]), r) is Some);
            assert(ms.last() == ms[ms.len() - 1]);
        } else {
            let k = choose|k: int| 0 <= k < ms.len() && !(#[trigger] guard_mems(p, with_mem(s, ms[k]), r) is Some);
            if k < init.len() {
                assert(init[k] == ms[k]);
                assert(guard_in_each(p, s, r, init) is None);
            } else {
                assert(ms.last() == ms[k]);
            }
        }
    }
}

/// A conjunction `l && r` (or `l & r`) as a guard leads to the memories
/// that `r` leads to from each memory that `l` leads to, in order.
pub proof fn law_conjunction_guard(p: Program, s: StateV, l: BExpr, op: LogicOp, r: BExpr)
    requires
        op == LogicOp::And || op == LogicOp::Land,
    ensures
        guard_mems(p, s, BExpr::Logic(Box::new(l), op, Box::new(r))) == match guard_mems(p, s, l) {
            None => None,
            Some(ms) => match guard_in_each(p, s, r, ms) {
                None => None,
                Some(xs) => Some(concat_mems(xs)),
            },
        },
{
    if let Some(ms) = guard_mems(p, s, l) {
        law_guard_after_concat(p, s, r, ms);
    }
}

/// A disjunction `l || r` (or `l | r`) as a guard: where `l` leads nowhere,
/// what `r` leads to; otherwise what `r` leads to from the memories of `l`,
/// or, where that is nothing, the memories of `l`.
pub proof fn law_disjunction_guard(p: Program, s: StateV, l: BExpr, op: LogicOp, r: BExpr)
    requires
        op == LogicOp::Or || op == LogicOp::Lor,
    ensures
        guard_mems(p, s, BExpr::Logic(Box::new(l), op, Box::new(r))) == match guard_mems(p, s, l) {
            None => None,
            Some(left) => if left.len() == 0 {
                guard_mems(p, s, r)
            } else {
                match guard_in_each(p, s, r, left) {
                    None => None,
                    Some(xs) => if concat_mems(xs).len() > 0 {
                        Some(concat_mems(xs))
                    } else {
                        Some(left)
                    },
                }
            },
        },
{
    if let Some(left) = guard_mems(p, s, l) {
        law_guard_after_concat(p, s, r, left);
    }
}

/// A tuple-space predicate used as a boolean is true exactly when the
/// operation could be performed now; it never fails with an error.
pub proof fn law_predicate_value(p: Program, s: StateV, op: OperationP)
    ensures
        beval(p, s, BExpr::OP(op)) == match guard_mems(p, s, BExpr::OP(op)) {
            None => None::<Result<bool, StepError>>,
            Some(ms) => Some(Ok(ms.len() > 0)),
        },
        !(beval(p, s, BExpr::OP(op)) matches Some(Err(_))),
{
}

} // verus!

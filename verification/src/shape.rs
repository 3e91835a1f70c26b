use vstd::prelude::*;

use crate::ast::{BExpr, Field, LogicOp, OperationP, TupleSpaceType, CG};
use crate::program::{Instr, InstrPtr, MemV, Program, StateV};
use crate::semantics::{
    assign_fields, branch_from, eval_guard, find_tuple_p, first_match, guard_after, guard_mems,
    guard_tag, last_match, match_space, random_matches, step_at, take_found, target_index, tuple_matches,
    updated_mem, with_mem,
};

verus! {

// ---------------------------------------------------------------------------
// The shape of a memory: how many variable slots, tuple spaces and channels
// it has. No instruction changes it.

/// Two memories have as many variable slots, tuple spaces and channels.
pub open spec fn mem_alike(a: MemV, b: MemV) -> bool {
    &&& a.data.len() == b.data.len()
    &&& a.ts.len() == b.ts.len()
    &&& a.ch.len() == b.ch.len()
}

/// Two states have as many processes, and their memories are alike.
pub open spec fn alike(a: StateV, b: StateV) -> bool {
    a.ptrs.len() == b.ptrs.len() && mem_alike(a.mem, b.mem)
}

/// Every memory of `ms` is alike `m`.
pub open spec fn mems_alike(ms: Seq<MemV>, m: MemV) -> bool {
    forall|k: int| 0 <= k < ms.len() ==> mem_alike(#[trigger] ms[k], m)
}

/// Every memory of the moves `v` is alike `m`.
pub open spec fn moves_alike(v: Seq<(MemV, u32)>, m: MemV) -> bool {
    forall|k: int| 0 <= k < v.len() ==> mem_alike((#[trigger] v[k]).0, m)
}

proof fn lemma_moves_push(v: Seq<(MemV, u32)>, x: (MemV, u32), m: MemV)
    requires
        moves_alike(v, m),
        mem_alike(x.0, m),
    ensures
        moves_alike(v.push(x), m),
{
    assert forall|k: int| 0 <= k < v.push(x).len() implies mem_alike((#[trigger] v.push(x)[k]).0, m) by {
        if k < v.len() {
            assert(v.push(x)[k] == v[k]);
        }
    }
}

proof fn lemma_mems_concat(a: Seq<MemV>, b: Seq<MemV>, m: MemV)
    requires
        mems_alike(a, m),
        mems_alike(b, m),
    ensures
        mems_alike(a + b, m),
{
    assert forall|k: int| 0 <= k < (a + b).len() implies mem_alike(#[trigger] (a + b)[k], m) by {
        if k < a.len() {
            assert((a + b)[k] == a[k]);
        } else {
            assert((a + b)[k] == b[k - a.len()]);
        }
    }
}

proof fn lemma_assign_fields_len(
    p: Program,
    s: StateV,
    tuple: Seq<i32>,
    fields: Seq<Field>,
    i: int,
    data: Seq<i32>,
)
    ensures
        assign_fields(p, s, tuple, fields, i, data) matches Some(Ok(d)) ==> d.len() == data.len(),
    decreases fields.len() - i,
{
    if !(i < 0 || i >= tuple.len() || i >= fields.len()) {
        match fields[i] {
            Field::Target(t) => {
                if let Some(Ok(ix)) = target_index(p, s, t) {
                    if ix < data.len() {
                        lemma_assign_fields_len(p, s, tuple, fields, i + 1, data.update(ix as int, tuple[i]));
                    }
                }
            },
            _ => lemma_assign_fields_len(p, s, tuple, fields, i + 1, data),
        }
    }
}

pub(crate) proof fn lemma_updated_mem_alike(
    p: Program,
    s: StateV,
    pos: int,
    fields: Seq<Field>,
    ts_index: u32,
    remove: bool,
    ptr: u32,
)
    ensures
        updated_mem(p, s, pos, fields, ts_index, remove, ptr) matches Some(Ok(x)) ==> mem_alike(x.0, s.mem),
{
    let ts = s.mem.ts;
    if !(ts_index >= ts.len() || pos < 0 || pos >= ts[ts_index as int].len()) {
        lemma_assign_fields_len(p, s, ts[ts_index as int][pos], fields, 0, s.mem.data);
    }
}

proof fn lemma_random_matches_alike(
    p: Program,
    s: StateV,
    ts_index: u32,
    fields: Seq<Field>,
    ptr: u32,
    remove: bool,
    pos: int,
    acc: Seq<(MemV, u32)>,
)
    requires
        moves_alike(acc, s.mem),
    ensures
        random_matches(p, s, ts_index, fields, ptr, remove, pos, acc) matches Some(Ok(v)) ==> moves_alike(
            v,
            s.mem,
        ),
    decreases s.mem.ts[ts_index as int].len() - pos,
{
    let tuples = s.mem.ts[ts_index as int];
    if 0 <= pos < tuples.len() {
        match tuple_matches(p, s, tuples[pos], fields) {
            Some(Ok(false)) => lemma_random_matches_alike(p, s, ts_index, fields, ptr, remove, pos + 1, acc),
            Some(Ok(true)) => {
                lemma_updated_mem_alike(p, s, pos, fields, ts_index, remove, ptr);
                if let Some(Ok(x)) = updated_mem(p, s, pos, fields, ts_index, remove, ptr) {
                    lemma_moves_push(acc, x, s.mem);
                    lemma_random_matches_alike(p, s, ts_index, fields, ptr, remove, pos + 1, acc.push(x));
                }
            },
            _ => {},
        }
    }
}

proof fn lemma_take_found_alike(
    p: Program,
    s: StateV,
    found: Option<Result<Option<int>, crate::program::StepError>>,
    ts_index: u32,
    fields: Seq<Field>,
    ptr: u32,
    remove: bool,
)
    ensures
        take_found(p, s, found, ts_index, fields, ptr, remove) matches Some(Ok(v)) ==> moves_alike(v, s.mem),
{
    if let Some(Ok(Some(pos))) = found {
        lemma_updated_mem_alike(p, s, pos, fields, ts_index, remove, ptr);
    }
}

pub(crate) proof fn lemma_match_space_alike(
    p: Program,
    s: StateV,
    ts_type: TupleSpaceType,
    ts_index: u32,
    fields: Seq<Field>,
    ptr: u32,
    remove: bool,
)
    ensures
        match_space(p, s, ts_type, ts_index, fields, ptr, remove) matches Some(Ok(v)) ==> moves_alike(v, s.mem),
{
    if ts_index < s.mem.ts.len() {
        let tuples = s.mem.ts[ts_index as int];
        match ts_type {
            TupleSpaceType::Random => lemma_random_matches_alike(p, s, ts_index, fields, ptr, remove, 0, seq![]),
            TupleSpaceType::FIFO => lemma_take_found_alike(
                p,
                s,
                first_match(p, s, tuples, fields, 0),
                ts_index,
                fields,
                ptr,
                remove,
            ),
            TupleSpaceType::LIFO => lemma_take_found_alike(
                p,
                s,
                last_match(p, s, tuples, fields, tuples.len() as int),
                ts_index,
                fields,
                ptr,
                remove,
            ),
            TupleSpaceType::Queue => lemma_take_found_alike(p, s, Some(Ok(Some(0))), ts_index, fields, ptr, remove),
            TupleSpaceType::Stack => lemma_take_found_alike(
                p,
                s,
                Some(Ok(Some(tuples.len() - 1))),
                ts_index,
                fields,
                ptr,
                remove,
            ),
        }
    }
}

proof fn lemma_find_tuple_p_alike(p: Program, s: StateV, name: Seq<char>, fields: Seq<Field>, remove: bool)
    ensures
        find_tuple_p(p, s, name, fields, remove) matches Some(ms) ==> mems_alike(ms, s.mem),
{
    if let Some(ix) = crate::semantics::tuple_space_index(p, name) {
        if ix < p.tuple_spaces@.len() {
            let ty = p.tuple_spaces@[ix as int].space_type;
            lemma_match_space_alike(p, s, ty, ix, fields, 0, remove);
            if let Some(Ok(v)) = match_space(p, s, ty, ix, fields, 0, remove) {
                let ms = v.map_values(|x: (MemV, u32)| x.0);
                assert forall|k: int| 0 <= k < ms.len() implies mem_alike(#[trigger] ms[k], s.mem) by {
                    assert(ms[k] == v[k].0);
                }
            }
        }
    }
}

proof fn lemma_guard_mems_alike(p: Program, s: StateV, e: BExpr)
    ensures
        guard_mems(p, s, e) matches Some(ms) ==> mems_alike(ms, s.mem),
    decreases e, guard_tag(e), 0int,
{
    match e {
        BExpr::OP(OperationP::GetP(t, f)) => lemma_find_tuple_p_alike(p, s, t.0@, f@, true),
        BExpr::OP(OperationP::QueryP(t, f)) => lemma_find_tuple_p_alike(p, s, t.0@, f@, false),
        BExpr::OP(OperationP::PutP(t, args)) => {},
        BExpr::Logic(l, op, r) => {
            if op == LogicOp::And || op == LogicOp::Land {
                lemma_guard_mems_alike(p, s, *l);
                if let Some(ms) = guard_mems(p, s, *l) {
                    lemma_guard_after_alike(p, s, *r, ms);
                }
            } else if op == LogicOp::Or || op == LogicOp::Lor {
                lemma_guard_mems_alike(p, s, *l);
                if let Some(left) = guard_mems(p, s, *l) {
                    if left.len() == 0 {
                        lemma_guard_mems_alike(p, s, *r);
                    } else {
                        lemma_guard_after_alike(p, s, *r, left);
                    }
                }
            }
        },
        _ => {},
    }
}

proof fn lemma_guard_after_alike(p: Program, s: StateV, r: BExpr, ms: Seq<MemV>)
    requires
        mems_alike(ms, s.mem),
    ensures
        guard_after(p, s, r, ms) matches Some(out) ==> mems_alike(out, s.mem),
    decreases r, 2int, ms.len(),
{
    if ms.len() > 0 {
        assert(mems_alike(ms.drop_last(), s.mem)) by {
            assert forall|k: int| 0 <= k < ms.drop_last().len() implies mem_alike(#[trigger] ms.drop_last()[k], s.mem) by {
                assert(ms.drop_last()[k] == ms[k]);
            }
        }
        lemma_guard_after_alike(p, s, r, ms.drop_last());
        lemma_guard_mems_alike(p, with_mem(s, ms.last()), r);
        assert(mem_alike(ms.last(), s.mem)) by {
            assert(ms.last() == ms[ms.len() - 1]);
        }
        if let Some(acc) = guard_after(p, s, r, ms.drop_last()) {
            if let Some(x) = guard_mems(p, with_mem(s, ms.last()), r) {
                assert(mems_alike(x, s.mem)) by {
                    assert forall|k: int| 0 <= k < x.len() implies mem_alike(#[trigger] x[k], s.mem) by {
                        assert(mem_alike(x[k], ms.last()));
                    }
                }
                lemma_mems_concat(acc, x, s.mem);
            }
        }
    }
}

proof fn lemma_eval_guard_alike(p: Program, s: StateV, cg: CG)
    ensures
        eval_guard(p, s, cg) matches Some(Ok(ms)) ==> mems_alike(ms, s.mem),
{
    if let CG::BoolExpression(e) = cg {
        lemma_guard_mems_alike(p, s, e);
    }
}

pub(crate) proof fn lemma_branch_from_alike(
    p: Program,
    s: StateV,
    choices: Seq<(CG, InstrPtr)>,
    k: int,
    acc: Seq<(MemV, u32)>,
)
    requires
        moves_alike(acc, s.mem),
    ensures
        branch_from(p, s, choices, k, acc) matches Some(Ok(v)) ==> moves_alike(v, s.mem),
    decreases choices.len() - k,
{
    if 0 <= k < choices.len() {
        lemma_eval_guard_alike(p, s, choices[k].0);
        if let Some(Ok(ms)) = eval_guard(p, s, choices[k].0) {
            let moved = ms.map_values(|m: MemV| (m, choices[k].1.0));
            let acc2 = acc + moved;
            assert(moves_alike(acc2, s.mem)) by {
                assert forall|j: int| 0 <= j < acc2.len() implies mem_alike((#[trigger] acc2[j]).0, s.mem) by {
                    if j < acc.len() {
                        assert(acc2[j] == acc[j]);
                    } else {
                        assert(acc2[j] == moved[j - acc.len()]);
                        assert(moved[j - acc.len()].0 == ms[j - acc.len()]);
                    }
                }
            }
            lemma_branch_from_alike(p, s, choices, k + 1, acc2);
        }
    }
}

/// Every move of one process leaves a memory alike the one it started from.
pub(crate) proof fn lemma_step_at_alike(p: Program, s: StateV, ptr: u32)
    ensures
        step_at(p, s, ptr) matches Some(Ok(v)) ==> moves_alike(v, s.mem),
{
    if ptr < p.instrs@.len() {
        match p.instrs@[ptr as int] {
            Instr::Branch { choices, otherwise } => lemma_branch_from_alike(p, s, choices@, 0, seq![]),
            Instr::Get(ty, ix, fields) => lemma_match_space_alike(p, s, ty, ix, fields@, ptr, true),
            Instr::Query(ty, ix, fields) => lemma_match_space_alike(p, s, ty, ix, fields@, ptr, false),
            _ => {},
        }
    }
}

} // verus!

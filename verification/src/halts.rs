use vstd::prelude::*;

use crate::ast::{AExpr, Field, Function, Target, TupleSpaceType, CG};
use crate::program::{Instr, InstrPtr, MemV, Program, StateV, StepError};
use crate::semantics::{
    aeval, array_index, assign_fields, branch_from, eval_guard, feval, fields_match_from,
    first_match, last_match, match_space, random_matches, step_at, take_found, target_index,
    tuple_matches, updated_mem, values_of,
};

verus! {

// ---------------------------------------------------------------------------
// Only a `Halt` instruction halts: no evaluation, no tuple-space operation
// and no other instruction reports `Halt`.

/// The result is not the error `Halt`.
pub open spec fn not_halt<T>(r: Option<Result<T, StepError>>) -> bool {
    !(r matches Some(Err(e)) && e == StepError::Halt)
}

/// The result is neither the error `Stuck` nor the error `Halt`.
pub open spec fn calm<T>(r: Option<Result<T, StepError>>) -> bool {
    !(r matches Some(Err(e)) && (e == StepError::Stuck || e == StepError::Halt))
}

pub(crate) proof fn lemma_target_calm(p: Program, s: StateV, t: Target)
    ensures
        calm(target_index(p, s, t)),
    decreases t, 0int,
{
    if let Target::Array(a, idx) = t {
        lemma_array_index_calm(p, s, a.0@, *idx);
    }
}

proof fn lemma_array_index_calm(p: Program, s: StateV, a: Seq<char>, idx: AExpr)
    ensures
        calm(array_index(p, s, a, idx)),
    decreases idx, 2int,
{
    lemma_aeval_calm(p, s, idx);
}

pub(crate) proof fn lemma_aeval_calm(p: Program, s: StateV, e: AExpr)
    ensures
        calm(aeval(p, s, e)),
    decreases e, 1int,
{
    match e {
        AExpr::Reference(t) => lemma_target_calm(p, s, t),
        AExpr::Binary(l, _, r) => {
            lemma_aeval_calm(p, s, *l);
            lemma_aeval_calm(p, s, *r);
        },
        AExpr::Minus(m) => lemma_aeval_calm(p, s, *m),
        AExpr::Function(f) => lemma_feval_calm(p, s, f),
        _ => {},
    }
}

proof fn lemma_feval_calm(p: Program, s: StateV, f: Function)
    ensures
        calm(feval(p, s, f)),
    decreases f, 1int,
{
    match f {
        Function::Division(a, b) => {
            lemma_aeval_calm(p, s, *a);
            lemma_aeval_calm(p, s, *b);
        },
        Function::Min(a, b) => {
            lemma_aeval_calm(p, s, *a);
            lemma_aeval_calm(p, s, *b);
        },
        Function::Max(a, b) => {
            lemma_aeval_calm(p, s, *a);
            lemma_aeval_calm(p, s, *b);
        },
        Function::Fac(x) => lemma_aeval_calm(p, s, *x),
        Function::Fib(x) => lemma_aeval_calm(p, s, *x),
        Function::Exp(a, b) => {
            lemma_aeval_calm(p, s, *a);
            lemma_aeval_calm(p, s, *b);
        },
    }
}

proof fn lemma_target_not_halt(p: Program, s: StateV, t: Target)
    ensures
        not_halt(target_index(p, s, t)),
    decreases t, 0int,
{
    if let Target::Array(a, idx) = t {
        lemma_array_index_not_halt(p, s, a.0@, *idx);
    }
}

proof fn lemma_array_index_not_halt(p: Program, s: StateV, a: Seq<char>, idx: AExpr)
    ensures
        not_halt(array_index(p, s, a, idx)),
    decreases idx, 2int,
{
    lemma_aeval_not_halt(p, s, idx);
}

pub(crate) proof fn lemma_aeval_not_halt(p: Program, s: StateV, e: AExpr)
    ensures
        not_halt(aeval(p, s, e)),
    decreases e, 1int,
{
    match e {
        AExpr::Reference(t) => lemma_target_not_halt(p, s, t),
        AExpr::Binary(l, _, r) => {
            lemma_aeval_not_halt(p, s, *l);
            lemma_aeval_not_halt(p, s, *r);
        },
        AExpr::Minus(m) => lemma_aeval_not_halt(p, s, *m),
        AExpr::Function(f) => lemma_feval_not_halt(p, s, f),
        _ => {},
    }
}

proof fn lemma_feval_not_halt(p: Program, s: StateV, f: Function)
    ensures
        not_halt(feval(p, s, f)),
    decreases f, 1int,
{
    match f {
        Function::Division(a, b) => {
            lemma_aeval_not_halt(p, s, *a);
            lemma_aeval_not_halt(p, s, *b);
        },
        Function::Min(a, b) => {
            lemma_aeval_not_halt(p, s, *a);
            lemma_aeval_not_halt(p, s, *b);
        },
        Function::Max(a, b) => {
            lemma_aeval_not_halt(p, s, *a);
            lemma_aeval_not_halt(p, s, *b);
        },
        Function::Fac(x) => lemma_aeval_not_halt(p, s, *x),
        Function::Fib(x) => lemma_aeval_not_halt(p, s, *x),
        Function::Exp(a, b) => {
            lemma_aeval_not_halt(p, s, *a);
            lemma_aeval_not_halt(p, s, *b);
        },
    }
}

proof fn lemma_fields_match_not_halt(p: Program, s: StateV, t: Seq<i32>, fields: Seq<Field>, i: int)
    ensures
        not_halt(fields_match_from(p, s, t, fields, i)),
    decreases fields.len() - i,
{
    if 0 <= i < fields.len() {
        if let Field::Expression(e) = fields[i] {
            lemma_aeval_not_halt(p, s, e);
        }
        lemma_fields_match_not_halt(p, s, t, fields, i + 1);
    }
}

proof fn lemma_tuple_matches_not_halt(p: Program, s: StateV, t: Seq<i32>, fields: Seq<Field>)
    ensures
        not_halt(tuple_matches(p, s, t, fields)),
{
    lemma_fields_match_not_halt(p, s, t, fields, 0);
}

proof fn lemma_assign_fields_not_halt(
    p: Program,
    s: StateV,
    tuple: Seq<i32>,
    fields: Seq<Field>,
    i: int,
    data: Seq<i32>,
)
    ensures
        not_halt(assign_fields(p, s, tuple, fields, i, data)),
    decreases fields.len() - i,
{
    if !(i < 0 || i >= tuple.len() || i >= fields.len()) {
        match fields[i] {
            Field::Target(t) => {
                lemma_target_not_halt(p, s, t);
                if let Some(Ok(ix)) = target_index(p, s, t) {
                    if ix < data.len() {
                        lemma_assign_fields_not_halt(p, s, tuple, fields, i + 1, data.update(ix as int, tuple[i]));
                    }
                }
            },
            _ => lemma_assign_fields_not_halt(p, s, tuple, fields, i + 1, data),
        }
    }
}

proof fn lemma_updated_mem_not_halt(
    p: Program,
    s: StateV,
    pos: int,
    fields: Seq<Field>,
    ts_index: u32,
    remove: bool,
    ptr: u32,
)
    ensures
        not_halt(updated_mem(p, s, pos, fields, ts_index, remove, ptr)),
{
    let ts = s.mem.ts;
    if !(ts_index >= ts.len() || pos < 0 || pos >= ts[ts_index as int].len()) {
        lemma_assign_fields_not_halt(p, s, ts[ts_index as int][pos], fields, 0, s.mem.data);
    }
}

proof fn lemma_random_matches_not_halt(
    p: Program,
    s: StateV,
    ts_index: u32,
    fields: Seq<Field>,
    ptr: u32,
    remove: bool,
    pos: int,
    acc: Seq<(MemV, u32)>,
)
    ensures
        not_halt(random_matches(p, s, ts_index, fields, ptr, remove, pos, acc)),
    decreases s.mem.ts[ts_index as int].len() - pos,
{
    let tuples = s.mem.ts[ts_index as int];
    if 0 <= pos < tuples.len() {
        lemma_tuple_matches_not_halt(p, s, tuples[pos], fields);
        lemma_updated_mem_not_halt(p, s, pos, fields, ts_index, remove, ptr);
        match tuple_matches(p, s, tuples[pos], fields) {
            Some(Ok(false)) => lemma_random_matches_not_halt(p, s, ts_index, fields, ptr, remove, pos + 1, acc),
            Some(Ok(true)) => {
                if let Some(Ok(x)) = updated_mem(p, s, pos, fields, ts_index, remove, ptr) {
                    lemma_random_matches_not_halt(p, s, ts_index, fields, ptr, remove, pos + 1, acc.push(x));
                }
            },
            _ => {},
        }
    }
}

proof fn lemma_first_match_not_halt(p: Program, s: StateV, tuples: Seq<Seq<i32>>, fields: Seq<Field>, pos: int)
    ensures
        not_halt(first_match(p, s, tuples, fields, pos)),
    decreases tuples.len() - pos,
{
    if 0 <= pos < tuples.len() {
        lemma_tuple_matches_not_halt(p, s, tuples[pos], fields);
        lemma_first_match_not_halt(p, s, tuples, fields, pos + 1);
    }
}

proof fn lemma_last_match_not_halt(p: Program, s: StateV, tuples: Seq<Seq<i32>>, fields: Seq<Field>, k: int)
    ensures
        not_halt(last_match(p, s, tuples, fields, k)),
    decreases k,
{
    if 0 < k <= tuples.len() {
        lemma_tuple_matches_not_halt(p, s, tuples[k - 1], fields);
        lemma_last_match_not_halt(p, s, tuples, fields, k - 1);
    }
}

proof fn lemma_take_found_not_halt(
    p: Program,
    s: StateV,
    found: Option<Result<Option<int>, StepError>>,
    ts_index: u32,
    fields: Seq<Field>,
    ptr: u32,
    remove: bool,
)
    requires
        not_halt(found),
    ensures
        not_halt(take_found(p, s, found, ts_index, fields, ptr, remove)),
{
    if let Some(Ok(Some(pos))) = found {
        lemma_updated_mem_not_halt(p, s, pos, fields, ts_index, remove, ptr);
    }
}

proof fn lemma_match_space_not_halt(
    p: Program,
    s: StateV,
    ty: TupleSpaceType,
    ts_index: u32,
    fields: Seq<Field>,
    ptr: u32,
    remove: bool,
)
    ensures
        not_halt(match_space(p, s, ty, ts_index, fields, ptr, remove)),
{
    if ts_index < s.mem.ts.len() {
        let tuples = s.mem.ts[ts_index as int];
        match ty {
            TupleSpaceType::Random => lemma_random_matches_not_halt(p, s, ts_index, fields, ptr, remove, 0, seq![]),
            TupleSpaceType::FIFO => {
                lemma_first_match_not_halt(p, s, tuples, fields, 0);
                lemma_take_found_not_halt(p, s, first_match(p, s, tuples, fields, 0), ts_index, fields, ptr, remove);
            },
            TupleSpaceType::LIFO => {
                lemma_last_match_not_halt(p, s, tuples, fields, tuples.len() as int);
                lemma_take_found_not_halt(
                    p,
                    s,
                    last_match(p, s, tuples, fields, tuples.len() as int),
                    ts_index,
                    fields,
                    ptr,
                    remove,
                );
            },
            TupleSpaceType::Queue => {
                if tuples.len() > 0 {
                    lemma_tuple_matches_not_halt(p, s, tuples[0], fields);
                }
                lemma_take_found_not_halt(p, s, Some(Ok(Some(0))), ts_index, fields, ptr, remove);
            },
            TupleSpaceType::Stack => {
                if tuples.len() > 0 {
                    lemma_tuple_matches_not_halt(p, s, tuples[tuples.len() - 1], fields);
                }
                lemma_take_found_not_halt(p, s, Some(Ok(Some(tuples.len() - 1))), ts_index, fields, ptr, remove);
            },
        }
    }
}

proof fn lemma_values_of_not_halt(p: Program, s: StateV, args: Seq<AExpr>)
    ensures
        not_halt(values_of(p, s, args)),
    decreases args.len(),
{
    if args.len() > 0 {
        lemma_values_of_not_halt(p, s, args.drop_last());
        lemma_aeval_not_halt(p, s, args.last());
    }
}

proof fn lemma_branch_from_not_halt(
    p: Program,
    s: StateV,
    choices: Seq<(CG, InstrPtr)>,
    k: int,
    acc: Seq<(MemV, u32)>,
)
    ensures
        not_halt(branch_from(p, s, choices, k, acc)),
    decreases choices.len() - k,
{
    if 0 <= k < choices.len() {
        if let CG::Receive(_, t) = choices[k].0 {
            lemma_target_not_halt(p, s, t);
        }
        if let Some(Ok(ms)) = eval_guard(p, s, choices[k].0) {
            lemma_branch_from_not_halt(
                p,
                s,
                choices,
                k + 1,
                acc + ms.map_values(|m: MemV| (m, choices[k].1.0)),
            );
        }
    }
}

/// A process reports `Halt` only at a `Halt` instruction.
pub(crate) proof fn lemma_step_at_halt(p: Program, s: StateV, ptr: u32)
    ensures
        step_at(p, s, ptr) matches Some(Err(e)) && e == StepError::Halt ==> ptr < p.instrs@.len()
            && p.instrs@[ptr as int] is Halt,
{
    if ptr < p.instrs@.len() {
        match p.instrs@[ptr as int] {
            Instr::Assign(t, e) => {
                lemma_aeval_not_halt(p, s, e);
                lemma_target_not_halt(p, s, t);
            },
            Instr::Branch { choices, .. } => lemma_branch_from_not_halt(p, s, choices@, 0, seq![]),
            Instr::Put(_, _, args) => lemma_values_of_not_halt(p, s, args@),
            Instr::Get(ty, ix, fields) => lemma_match_space_not_halt(p, s, ty, ix, fields@, ptr, true),
            Instr::Query(ty, ix, fields) => lemma_match_space_not_halt(p, s, ty, ix, fields@, ptr, false),
            Instr::Send(_, _, e) => lemma_aeval_not_halt(p, s, e),
            Instr::Receive(_, t) => lemma_target_not_halt(p, s, t),
            _ => {},
        }
    }
}

// ---------------------------------------------------------------------------
// A process that can move has somewhere to go.

proof fn lemma_random_matches_nonempty(
    p: Program,
    s: StateV,
    ts_index: u32,
    fields: Seq<Field>,
    ptr: u32,
    remove: bool,
    pos: int,
    acc: Seq<(MemV, u32)>,
)
    ensures
        random_matches(p, s, ts_index, fields, ptr, remove, pos, acc) matches Some(Ok(v)) ==> v.len() > 0,
    decreases s.mem.ts[ts_index as int].len() - pos,
{
    let tuples = s.mem.ts[ts_index as int];
    if 0 <= pos < tuples.len() {
        match tuple_matches(p, s, tuples[pos], fields) {
            Some(Ok(false)) => lemma_random_matches_nonempty(p, s, ts_index, fields, ptr, remove, pos + 1, acc),
            Some(Ok(true)) => {
                if let Some(Ok(x)) = updated_mem(p, s, pos, fields, ts_index, remove, ptr) {
                    lemma_random_matches_nonempty(p, s, ts_index, fields, ptr, remove, pos + 1, acc.push(x));
                }
            },
            _ => {},
        }
    }
}

proof fn lemma_match_space_nonempty(
    p: Program,
    s: StateV,
    ty: TupleSpaceType,
    ts_index: u32,
    fields: Seq<Field>,
    ptr: u32,
    remove: bool,
)
    ensures
        match_space(p, s, ty, ts_index, fields, ptr, remove) matches Some(Ok(v)) ==> v.len() > 0,
{
    if ts_index < s.mem.ts.len() && ty is Random {
        lemma_random_matches_nonempty(p, s, ts_index, fields, ptr, remove, 0, seq![]);
    }
}

/// Where a process can move, it has at least one move.
pub(crate) proof fn lemma_step_at_nonempty(p: Program, s: StateV, ptr: u32)
    ensures
        step_at(p, s, ptr) matches Some(Ok(v)) ==> v.len() > 0,
{
    if ptr < p.instrs@.len() {
        match p.instrs@[ptr as int] {
            Instr::Get(ty, ix, fields) => lemma_match_space_nonempty(p, s, ty, ix, fields@, ptr, true),
            Instr::Query(ty, ix, fields) => lemma_match_space_nonempty(p, s, ty, ix, fields@, ptr, false),
            _ => {},
        }
    }
}

} // verus!

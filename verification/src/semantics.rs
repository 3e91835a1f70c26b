use vstd::prelude::*;

use crate::ast::{
    AExpr, AOp, BExpr, BufferSize, Field, Function, LogicOp, OperationP, RelOp, Target, TargetDecl,
    TupleSpaceType, CG,
};
use crate::ast::{ChannelFormula, ChannelName};
use crate::perms::index_permutations;
use crate::program::{
    flow_ok, instr_flow_ok, ChannelMeta, Instr, InstrPtr, MemV, Program, StateV, StepError,
    TupleSpaceMeta,
};

verus! {

// ---------------------------------------------------------------------------
// Searching.

/// `i` is the first index below `len` at which `pred` holds.
pub open spec fn is_first(len: int, pred: spec_fn(int) -> bool, i: int) -> bool {
    &&& 0 <= i < len
    &&& pred(i)
    &&& forall|j: int| 0 <= j < i ==> !#[trigger] pred(j)
}

/// The first index below `len` at which `pred` holds, if there is one.
pub open spec fn first_index(len: int, pred: spec_fn(int) -> bool) -> Option<int> {
    if exists|i: int| is_first(len, pred, i) {
        Some(choose|i: int| is_first(len, pred, i))
    } else {
        None
    }
}

pub proof fn lemma_first_index_found(len: int, pred: spec_fn(int) -> bool, i: int)
    requires
        is_first(len, pred, i),
    ensures
        first_index(len, pred) == Some(i),
{
    let k = choose|k: int| is_first(len, pred, k);
    assert(is_first(len, pred, k));
    if k < i {
        assert(!pred(k));
    } else if k > i {
        assert(!pred(i));
    }
}

pub proof fn lemma_first_index_none(len: int, pred: spec_fn(int) -> bool)
    requires
        forall|j: int| 0 <= j < len ==> !#[trigger] pred(j),
    ensures
        first_index(len, pred) is None,
{
    if exists|i: int| is_first(len, pred, i) {
        let k = choose|k: int| is_first(len, pred, k);
        assert(pred(k));
    }
}

pub proof fn lemma_first_index_some(len: int, pred: spec_fn(int) -> bool, i: int)
    requires
        0 <= i < len,
        pred(i),
    ensures
        first_index(len, pred) is Some,
    decreases i,
{
    if exists|j: int| 0 <= j < i && #[trigger] pred(j) {
        let j = choose|j: int| 0 <= j < i && #[trigger] pred(j);
        lemma_first_index_some(len, pred, j);
    } else {
        assert(is_first(len, pred, i));
        lemma_first_index_found(len, pred, i);
    }
}

// ---------------------------------------------------------------------------
// Looking names up in a compiled program.

pub open(crate) spec fn is_variable_named(p: Program, name: Seq<char>) -> spec_fn(int) -> bool {
    |i: int| p.targets@[i].target matches TargetDecl::Variable(v) && v.0@ == name
}

pub open(crate) spec fn is_array_named(p: Program, name: Seq<char>) -> spec_fn(int) -> bool {
    |i: int| p.targets@[i].target matches TargetDecl::Array(a) && a.0@ == name
}

pub open spec fn is_space_named(spaces: Seq<TupleSpaceMeta>, name: Seq<char>) -> spec_fn(int) -> bool {
    |i: int| spaces[i].name.0@ == name
}

pub open spec fn is_channel_named(chans: Seq<ChannelMeta>, name: Seq<char>) -> spec_fn(int) -> bool {
    |i: int| chans[i].name.0@ == name
}

/// The position of the first tuple space named `name`.
pub open spec fn space_position(spaces: Seq<TupleSpaceMeta>, name: Seq<char>) -> Option<u32> {
    match first_index(spaces.len() as int, is_space_named(spaces, name)) {
        Some(i) => Some(i as u32),
        None => None,
    }
}

/// The position of the first channel named `name`.
pub open spec fn channel_position(chans: Seq<ChannelMeta>, name: Seq<char>) -> Option<u32> {
    match first_index(chans.len() as int, is_channel_named(chans, name)) {
        Some(i) => Some(i as u32),
        None => None,
    }
}

/// The data cell of a variable: its position among the program's targets.
pub open(crate) spec fn variable_index(p: Program, name: Seq<char>) -> Option<u32> {
    match first_index(p.targets@.len() as int, is_variable_named(p, name)) {
        Some(i) => Some(i as u32),
        None => None,
    }
}

/// The layout entry of an array.
pub open(crate) spec fn array_slot(p: Program, name: Seq<char>) -> Option<int> {
    first_index(p.targets@.len() as int, is_array_named(p, name))
}

pub open(crate) spec fn tuple_space_index(p: Program, name: Seq<char>) -> Option<u32> {
    space_position(p.tuple_spaces@, name)
}

pub open(crate) spec fn channel_index(p: Program, name: Seq<char>) -> Option<u32> {
    channel_position(p.channels@, name)
}

// ---------------------------------------------------------------------------
// Arithmetic, as a release build computes it: `+`, `-`, `*`, negation,
// factorial, Fibonacci and powers wrap around; a division by zero, and the
// division of `i32::MIN` by `-1`, panic.

/// `1 * 2 * ... * n`, wrapping.
pub open spec fn factorial_wrapping(n: nat) -> i32
    decreases n,
{
    if n == 0 {
        1
    } else {
        factorial_wrapping((n - 1) as nat).wrapping_mul(n as i32)
    }
}

/// The pair `(fib(n), fib(n + 1))`, wrapping.
pub open spec fn fibonacci_pair(n: nat) -> (i32, i32)
    decreases n,
{
    if n == 0 {
        (0, 1)
    } else {
        let (a, b) = fibonacci_pair((n - 1) as nat);
        (b, a.wrapping_add(b))
    }
}

/// `a` to the power `n`, wrapping.
pub open spec fn power_wrapping(a: i32, n: nat) -> i32
    decreases n,
{
    if n == 0 {
        1
    } else {
        power_wrapping(a, (n - 1) as nat).wrapping_mul(a)
    }
}

pub open spec fn wrapping_add_u32(x: u32, y: u32) -> u32 {
    if x + y > u32::MAX {
        (x + y - u32::MAX - 1) as u32
    } else {
        (x + y) as u32
    }
}

// ---------------------------------------------------------------------------
// Evaluation of arithmetic expressions. `None` stands for a panic of the
// interpreter, `Some(Err(..))` for an error of the step.

/// The data cell a target denotes.
pub open(crate) spec fn target_index(p: Program, s: StateV, t: Target) -> Option<Result<u32, StepError>>
    decreases t, 0int,
{
    match t {
        Target::Variable(v) => match variable_index(p, v.0@) {
            Some(i) => Some(Ok(i)),
            None => None,
        },
        Target::Array(a, idx) => array_index(p, s, a.0@, *idx),
    }
}

/// The data cell of `a[idx]`.
pub open(crate) spec fn array_index(p: Program, s: StateV, a: Seq<char>, idx: AExpr) -> Option<
    Result<u32, StepError>,
>
    decreases idx, 2int,
{
    match aeval(p, s, idx) {
        None => None,
        Some(Err(e)) => Some(Err(e)),
        Some(Ok(v)) => if v < 0 {
            Some(Err(StepError::ArrayIndexNegative))
        } else {
            match array_slot(p, a) {
                None => None,
                Some(k) => {
                    let meta = p.targets@[k];
                    if v as u32 >= meta.length {
                        Some(Err(StepError::ArrayIndexOutOfBounds))
                    } else {
                        Some(Ok(wrapping_add_u32(meta.base_index, v as u32)))
                    }
                },
            }
        },
    }
}

pub open(crate) spec fn aop_apply(op: AOp, l: i32, r: i32) -> Option<i32> {
    match op {
        AOp::Plus => Some(l.wrapping_add(r)),
        AOp::Minus => Some(l.wrapping_sub(r)),
        AOp::Times => Some(l.wrapping_mul(r)),
        AOp::Divide => l.checked_div(r),
    }
}

/// The value of an arithmetic expression in a state.
pub open(crate) spec fn aeval(p: Program, s: StateV, e: AExpr) -> Option<Result<i32, StepError>>
    decreases e, 1int,
{
    match e {
        AExpr::Number(n) => Some(Ok(n)),
        AExpr::Reference(t) => match target_index(p, s, t) {
            None => None,
            Some(Err(err)) => Some(Err(err)),
            Some(Ok(i)) => if i < s.mem.data.len() {
                Some(Ok(s.mem.data[i as int]))
            } else {
                None
            },
        },
        AExpr::Binary(l, op, r) => match aeval(p, s, *l) {
            None => None,
            Some(Err(err)) => Some(Err(err)),
            Some(Ok(lv)) => match aeval(p, s, *r) {
                None => None,
                Some(Err(err)) => Some(Err(err)),
                Some(Ok(rv)) => match aop_apply(op, lv, rv) {
                    Some(v) => Some(Ok(v)),
                    None => None,
                },
            },
        },
        AExpr::Minus(m) => match aeval(p, s, *m) {
            None => None,
            Some(Err(err)) => Some(Err(err)),
            Some(Ok(v)) => Some(Ok(0i32.wrapping_sub(v))),
        },
        AExpr::Function(f) => feval(p, s, f),
        AExpr::Old(_) => Some(Err(StepError::HitOld)),
    }
}

/// The value of a call of a built-in function.
pub open(crate) spec fn feval(p: Program, s: StateV, f: Function) -> Option<Result<i32, StepError>>
    decreases f, 1int,
{
    match f {
        Function::Division(a, b) => match aeval(p, s, *a) {
            None => None,
            Some(Err(err)) => Some(Err(err)),
            Some(Ok(av)) => match aeval(p, s, *b) {
                None => None,
                Some(Err(err)) => Some(Err(err)),
                Some(Ok(bv)) => if bv == 0 {
                    Some(Err(StepError::DivisionByZero))
                } else {
                    match av.checked_div(bv) {
                        Some(q) => Some(Ok(q)),
                        None => None,
                    }
                },
            },
        },
        Function::Min(a, b) => match aeval(p, s, *a) {
            None => None,
            Some(Err(err)) => Some(Err(err)),
            Some(Ok(av)) => match aeval(p, s, *b) {
                None => None,
                Some(Err(err)) => Some(Err(err)),
                Some(Ok(bv)) => Some(Ok(if av <= bv { av } else { bv })),
            },
        },
        Function::Max(a, b) => match aeval(p, s, *a) {
            None => None,
            Some(Err(err)) => Some(Err(err)),
            Some(Ok(av)) => match aeval(p, s, *b) {
                None => None,
                Some(Err(err)) => Some(Err(err)),
                Some(Ok(bv)) => Some(Ok(if av <= bv { bv } else { av })),
            },
        },
        Function::Fac(x) => match aeval(p, s, *x) {
            None => None,
            Some(Err(err)) => Some(Err(err)),
            Some(Ok(xv)) => if xv < 0 {
                Some(Err(StepError::NegativeFactorial))
            } else {
                Some(Ok(factorial_wrapping(xv as nat)))
            },
        },
        Function::Fib(x) => match aeval(p, s, *x) {
            None => None,
            Some(Err(err)) => Some(Err(err)),
            Some(Ok(xv)) => if xv < 0 {
                Some(Err(StepError::NegativeFibonacci))
            } else {
                Some(Ok(fibonacci_pair(xv as nat).0))
            },
        },
        Function::Exp(a, b) => match aeval(p, s, *a) {
            None => None,
            Some(Err(err)) => Some(Err(err)),
            Some(Ok(av)) => match aeval(p, s, *b) {
                None => None,
                Some(Err(err)) => Some(Err(err)),
                Some(Ok(bv)) => if bv < 0 {
                    Some(Err(StepError::NegativePower))
                } else {
                    Some(Ok(power_wrapping(av, bv as nat)))
                },
            },
        },
    }
}

// ---------------------------------------------------------------------------
// Tuple spaces.

pub open spec fn with_mem(s: StateV, m: MemV) -> StateV {
    StateV { ptrs: s.ptrs, mem: m }
}

/// Whether the fields from `i` on match the tuple.
pub open(crate) spec fn fields_match_from(
    p: Program,
    s: StateV,
    t: Seq<i32>,
    fields: Seq<Field>,
    i: int,
) -> Option<Result<bool, StepError>>
    decreases fields.len() - i,
{
    if i < 0 || i >= fields.len() {
        Some(Ok(true))
    } else {
        match fields[i] {
            Field::Expression(e) => match aeval(p, s, e) {
                None => None,
                Some(Err(err)) => Some(Err(err)),
                Some(Ok(v)) => if t[i] != v {
                    Some(Ok(false))
                } else {
                    fields_match_from(p, s, t, fields, i + 1)
                },
            },
            _ => fields_match_from(p, s, t, fields, i + 1),
        }
    }
}

/// Whether a tuple matches a pattern: same length, and every expression
/// field equal to the tuple's value there.
pub open(crate) spec fn tuple_matches(p: Program, s: StateV, t: Seq<i32>, fields: Seq<Field>) -> Option<
    Result<bool, StepError>,
> {
    if t.len() != fields.len() {
        Some(Ok(false))
    } else {
        fields_match_from(p, s, t, fields, 0)
    }
}

/// The data after the tuple's values are written to the target fields from
/// `i` on.
pub open(crate) spec fn assign_fields(
    p: Program,
    s: StateV,
    tuple: Seq<i32>,
    fields: Seq<Field>,
    i: int,
    data: Seq<i32>,
) -> Option<Result<Seq<i32>, StepError>>
    decreases fields.len() - i,
{
    if i < 0 || i >= tuple.len() || i >= fields.len() {
        Some(Ok(data))
    } else {
        match fields[i] {
            Field::Target(t) => match target_index(p, s, t) {
                None => None,
                Some(Err(err)) => Some(Err(err)),
                Some(Ok(ix)) => if ix < data.len() {
                    assign_fields(p, s, tuple, fields, i + 1, data.update(ix as int, tuple[i]))
                } else {
                    None
                },
            },
            _ => assign_fields(p, s, tuple, fields, i + 1, data),
        }
    }
}

/// The memory after taking (or reading) the tuple at `pos` of tuple space
/// `ts_index`, and the next instruction.
pub open(crate) spec fn updated_mem(
    p: Program,
    s: StateV,
    pos: int,
    fields: Seq<Field>,
    ts_index: u32,
    remove: bool,
    ptr: u32,
) -> Option<Result<(MemV, u32), StepError>> {
    let ts = s.mem.ts;
    if ts_index >= ts.len() || pos < 0 || pos >= ts[ts_index as int].len() {
        None
    } else {
        let tuple = ts[ts_index as int][pos];
        let ts2 = if remove {
            ts.update(ts_index as int, ts[ts_index as int].remove(pos))
        } else {
            ts
        };
        match assign_fields(p, s, tuple, fields, 0, s.mem.data) {
            None => None,
            Some(Err(err)) => Some(Err(err)),
            Some(Ok(d)) => Some(Ok((MemV { data: d, ts: ts2, ch: s.mem.ch }, (ptr + 1) as u32))),
        }
    }
}

/// All matching tuples of a random tuple space, from `pos` on, after `acc`.
pub open(crate) spec fn random_matches(
    p: Program,
    s: StateV,
    ts_index: u32,
    fields: Seq<Field>,
    ptr: u32,
    remove: bool,
    pos: int,
    acc: Seq<(MemV, u32)>,
) -> Option<Result<Seq<(MemV, u32)>, StepError>>
    decreases s.mem.ts[ts_index as int].len() - pos,
{
    let tuples = s.mem.ts[ts_index as int];
    if pos < 0 || pos >= tuples.len() {
        if acc.len() == 0 {
            Some(Err(StepError::Stuck))
        } else {
            Some(Ok(acc))
        }
    } else {
        match tuple_matches(p, s, tuples[pos], fields) {
            None => None,
            Some(Err(err)) => Some(Err(err)),
            Some(Ok(false)) => random_matches(p, s, ts_index, fields, ptr, remove, pos + 1, acc),
            Some(Ok(true)) => match updated_mem(p, s, pos, fields, ts_index, remove, ptr) {
                None => None,
                Some(Err(err)) => Some(Err(err)),
                Some(Ok(x)) => random_matches(
                    p,
                    s,
                    ts_index,
                    fields,
                    ptr,
                    remove,
                    pos + 1,
                    acc.push(x),
                ),
            },
        }
    }
}

/// The first matching position at or after `pos`.
pub open(crate) spec fn first_match(
    p: Program,
    s: StateV,
    tuples: Seq<Seq<i32>>,
    fields: Seq<Field>,
    pos: int,
) -> Option<Result<Option<int>, StepError>>
    decreases tuples.len() - pos,
{
    if pos < 0 || pos >= tuples.len() {
        Some(Ok(None))
    } else {
        match tuple_matches(p, s, tuples[pos], fields) {
            None => None,
            Some(Err(err)) => Some(Err(err)),
            Some(Ok(true)) => Some(Ok(Some(pos))),
            Some(Ok(false)) => first_match(p, s, tuples, fields, pos + 1),
        }
    }
}

/// The last matching position below `k`.
pub open(crate) spec fn last_match(
    p: Program,
    s: StateV,
    tuples: Seq<Seq<i32>>,
    fields: Seq<Field>,
    k: int,
) -> Option<Result<Option<int>, StepError>>
    decreases k,
{
    if k <= 0 || k > tuples.len() {
        Some(Ok(None))
    } else {
        match tuple_matches(p, s, tuples[k - 1], fields) {
            None => None,
            Some(Err(err)) => Some(Err(err)),
            Some(Ok(true)) => Some(Ok(Some(k - 1))),
            Some(Ok(false)) => last_match(p, s, tuples, fields, k - 1),
        }
    }
}

/// The single successor for the tuple at `pos`, if one was found.
pub open(crate) spec fn take_found(
    p: Program,
    s: StateV,
    found: Option<Result<Option<int>, StepError>>,
    ts_index: u32,
    fields: Seq<Field>,
    ptr: u32,
    remove: bool,
) -> Option<Result<Seq<(MemV, u32)>, StepError>> {
    match found {
        None => None,
        Some(Err(err)) => Some(Err(err)),
        Some(Ok(None)) => Some(Err(StepError::Stuck)),
        Some(Ok(Some(pos))) => match updated_mem(p, s, pos, fields, ts_index, remove, ptr) {
            None => None,
            Some(Err(err)) => Some(Err(err)),
            Some(Ok(x)) => Some(Ok(seq![x])),
        },
    }
}

/// Taking (`remove`) or reading a tuple that matches `fields` from a tuple
/// space, by its discipline: every match for a random space, the first for
/// FIFO, the last for LIFO, the first tuple only for a queue and the last
/// tuple only for a stack. Each result is a memory and the next instruction.
pub open(crate) spec fn match_space(
    p: Program,
    s: StateV,
    ts_type: TupleSpaceType,
    ts_index: u32,
    fields: Seq<Field>,
    ptr: u32,
    remove: bool,
) -> Option<Result<Seq<(MemV, u32)>, StepError>> {
    if ts_index >= s.mem.ts.len() {
        None
    } else {
        let tuples = s.mem.ts[ts_index as int];
        match ts_type {
            TupleSpaceType::Random => random_matches(p, s, ts_index, fields, ptr, remove, 0, seq![]),
            TupleSpaceType::FIFO => take_found(
                p,
                s,
                first_match(p, s, tuples, fields, 0),
                ts_index,
                fields,
                ptr,
                remove,
            ),
            TupleSpaceType::LIFO => take_found(
                p,
                s,
                last_match(p, s, tuples, fields, tuples.len() as int),
                ts_index,
                fields,
                ptr,
                remove,
            ),
            TupleSpaceType::Queue => if tuples.len() == 0 {
                Some(Err(StepError::Stuck))
            } else {
                match tuple_matches(p, s, tuples[0], fields) {
                    None => None,
                    Some(Err(err)) => Some(Err(err)),
                    Some(Ok(false)) => Some(Err(StepError::Stuck)),
                    Some(Ok(true)) => take_found(
                        p,
                        s,
                        Some(Ok(Some(0))),
                        ts_index,
                        fields,
                        ptr,
                        remove,
                    ),
                }
            },
            TupleSpaceType::Stack => if tuples.len() == 0 {
                Some(Err(StepError::Stuck))
            } else {
                match tuple_matches(p, s, tuples[tuples.len() - 1], fields) {
                    None => None,
                    Some(Err(err)) => Some(Err(err)),
                    Some(Ok(false)) => Some(Err(StepError::Stuck)),
                    Some(Ok(true)) => take_found(
                        p,
                        s,
                        Some(Ok(Some(tuples.len() - 1))),
                        ts_index,
                        fields,
                        ptr,
                        remove,
                    ),
                }
            },
        }
    }
}

/// The memories a `getP`/`queryP` predicate can lead to (none where the
/// space has no matching tuple or matching fails with an error).
pub open(crate) spec fn find_tuple_p(
    p: Program,
    s: StateV,
    name: Seq<char>,
    fields: Seq<Field>,
    remove: bool,
) -> Option<Seq<MemV>> {
    match tuple_space_index(p, name) {
        None => None,
        Some(ix) => if ix >= p.tuple_spaces@.len() {
            None
        } else {
            match match_space(p, s, p.tuple_spaces@[ix as int].space_type, ix, fields, 0, remove) {
                None => None,
                Some(Err(_)) => Some(seq![]),
                Some(Ok(v)) => Some(v.map_values(|x: (MemV, u32)| x.0)),
            }
        },
    }
}

/// The values of the arguments, with `0` for one whose evaluation fails.
pub open(crate) spec fn values_or_zero(p: Program, s: StateV, args: Seq<AExpr>) -> Option<Seq<i32>>
    decreases args.len(),
{
    if args.len() == 0 {
        Some(seq![])
    } else {
        match values_or_zero(p, s, args.drop_last()) {
            None => None,
            Some(vs) => match aeval(p, s, args.last()) {
                None => None,
                Some(Err(_)) => Some(vs.push(0)),
                Some(Ok(v)) => Some(vs.push(v)),
            },
        }
    }
}

/// The values of the arguments, or the first error.
pub open(crate) spec fn values_of(p: Program, s: StateV, args: Seq<AExpr>) -> Option<
    Result<Seq<i32>, StepError>,
>
    decreases args.len(),
{
    if args.len() == 0 {
        Some(Ok(seq![]))
    } else {
        match values_of(p, s, args.drop_last()) {
            None => None,
            Some(Err(err)) => Some(Err(err)),
            Some(Ok(vs)) => match aeval(p, s, args.last()) {
                None => None,
                Some(Err(err)) => Some(Err(err)),
                Some(Ok(v)) => Some(Ok(vs.push(v))),
            },
        }
    }
}

pub open spec fn bexpr_tag(b: BExpr) -> int {
    if b is OP {
        1
    } else {
        0
    }
}

pub open spec fn guard_tag(b: BExpr) -> int {
    if b is OP {
        0
    } else {
        1
    }
}

pub open spec fn rel_apply(op: RelOp, l: i32, r: i32) -> bool {
    match op {
        RelOp::Eq => l == r,
        RelOp::Ne => l != r,
        RelOp::Lt => l < r,
        RelOp::Le => l <= r,
        RelOp::Gt => l > r,
        RelOp::Ge => l >= r,
    }
}

pub open spec fn logic_apply(op: LogicOp, l: bool, r: bool) -> bool {
    match op {
        LogicOp::And => l && r,
        LogicOp::Land => l && r,
        LogicOp::Or => l || r,
        LogicOp::Lor => l || r,
        LogicOp::Implies => !l || r,
    }
}

/// The truth value of a boolean expression. Both sides of a connective are
/// evaluated; a quantified expression cannot be evaluated (`None`); a
/// tuple-space predicate holds when it can lead to some memory.
pub open(crate) spec fn beval(p: Program, s: StateV, b: BExpr) -> Option<Result<bool, StepError>>
    decreases b, bexpr_tag(b), 0int,
{
    match b {
        BExpr::Bool(v) => Some(Ok(v)),
        BExpr::Rel(l, op, r) => match aeval(p, s, l) {
            None => None,
            Some(Err(err)) => Some(Err(err)),
            Some(Ok(lv)) => match aeval(p, s, r) {
                None => None,
                Some(Err(err)) => Some(Err(err)),
                Some(Ok(rv)) => Some(Ok(rel_apply(op, lv, rv))),
            },
        },
        BExpr::Logic(l, op, r) => match beval(p, s, *l) {
            None => None,
            Some(Err(err)) => Some(Err(err)),
            Some(Ok(lv)) => match beval(p, s, *r) {
                None => None,
                Some(Err(err)) => Some(Err(err)),
                Some(Ok(rv)) => Some(Ok(logic_apply(op, lv, rv))),
            },
        },
        BExpr::Not(x) => match beval(p, s, *x) {
            None => None,
            Some(Err(err)) => Some(Err(err)),
            Some(Ok(v)) => Some(Ok(!v)),
        },
        BExpr::Quantified(_, _, _) => None,
        BExpr::OP(_) => match guard_mems(p, s, b) {
            None => None,
            Some(ms) => Some(Ok(ms.len() > 0)),
        },
    }
}

/// The memories reached by evaluating `r` as a guard in each memory of
/// `ms`, in order.
pub open(crate) spec fn guard_after(p: Program, s: StateV, r: BExpr, ms: Seq<MemV>) -> Option<Seq<MemV>>
    decreases r, 2int, ms.len(),
{
    if ms.len() == 0 {
        Some(seq![])
    } else {
        match guard_after(p, s, r, ms.drop_last()) {
            None => None,
            Some(acc) => match guard_mems(p, with_mem(s, ms.last()), r) {
                None => None,
                Some(x) => Some(acc + x),
            },
        }
    }
}

/// The memories a boolean guard can lead to. Tuple-space predicates may
/// change the memory (`getP` takes a tuple, `putP` adds one); a conjunction
/// evaluates its right side in each memory its left side leads to; a
/// disjunction does the same when both sides succeed, and otherwise keeps
/// whichever side succeeded; any other guard leads to the unchanged memory
/// when it is true.
pub open(crate) spec fn guard_mems(p: Program, s: StateV, e: BExpr) -> Option<Seq<MemV>>
    decreases e, guard_tag(e), 0int,
{
    match e {
        BExpr::OP(OperationP::GetP(t, f)) => find_tuple_p(p, s, t.0@, f@, true),
        BExpr::OP(OperationP::QueryP(t, f)) => find_tuple_p(p, s, t.0@, f@, false),
        BExpr::OP(OperationP::PutP(t, args)) => match tuple_space_index(p, t.0@) {
            None => None,
            Some(ix) => if ix >= p.tuple_spaces@.len() || ix >= s.mem.ts.len() {
                None
            } else {
                let full = match p.tuple_spaces@[ix as int].size {
                    BufferSize::Finite(max) => s.mem.ts[ix as int].len() >= max,
                    BufferSize::Infinite => false,
                };
                if full {
                    Some(seq![])
                } else {
                    match values_or_zero(p, s, args@) {
                        None => None,
                        Some(vs) => Some(
                            seq![
                                MemV {
                                    data: s.mem.data,
                                    ts: s.mem.ts.update(ix as int, s.mem.ts[ix as int].push(vs)),
                                    ch: s.mem.ch,
                                },
                            ],
                        ),
                    }
                }
            },
        },
        BExpr::Logic(l, op, r) => if op == LogicOp::And || op == LogicOp::Land {
            match guard_mems(p, s, *l) {
                None => None,
                Some(ms) => guard_after(p, s, *r, ms),
            }
        } else if op == LogicOp::Or || op == LogicOp::Lor {
            match guard_mems(p, s, *l) {
                None => None,
                Some(left) => if left.len() == 0 {
                    guard_mems(p, s, *r)
                } else {
                    match guard_after(p, s, *r, left) {
                        None => None,
                        Some(chained) => if chained.len() > 0 {
                            Some(chained)
                        } else {
                            Some(left)
                        },
                    }
                },
            }
        } else {
            match beval(p, s, e) {
                None => None,
                Some(Ok(true)) => Some(seq![s.mem]),
                Some(_) => Some(seq![]),
            }
        },
        _ => match beval(p, s, e) {
            None => None,
            Some(Ok(true)) => Some(seq![s.mem]),
            Some(_) => Some(seq![]),
        },
    }
}

/// The memories a communication guard can lead to.
pub open(crate) spec fn eval_guard(p: Program, s: StateV, cg: CG) -> Option<Result<Seq<MemV>, StepError>> {
    match cg {
        CG::BoolExpression(e) => match guard_mems(p, s, e) {
            None => None,
            Some(ms) => Some(Ok(ms)),
        },
        CG::Send(ch, e) => match channel_index(p, ch.0@) {
            None => Some(Ok(seq![])),
            Some(ci) => match aeval(p, s, e) {
                None => None,
                Some(Err(_)) => Some(Ok(seq![])),
                Some(Ok(v)) => if ci >= p.channels@.len() || ci >= s.mem.ch.len() {
                    None
                } else {
                    let sent = MemV {
                        data: s.mem.data,
                        ts: s.mem.ts,
                        ch: s.mem.ch.update(ci as int, s.mem.ch[ci as int].push(v)),
                    };
                    match p.channels@[ci as int].size {
                        BufferSize::Finite(max) => if s.mem.ch[ci as int].len() < max {
                            Some(Ok(seq![sent]))
                        } else {
                            Some(Ok(seq![]))
                        },
                        BufferSize::Infinite => Some(Ok(seq![sent])),
                    }
                },
            },
        },
        CG::Receive(ch, target) => match channel_index(p, ch.0@) {
            None => Some(Ok(seq![])),
            Some(ci) => match target_index(p, s, target) {
                None => None,
                Some(Err(err)) => Some(Err(err)),
                Some(Ok(ix)) => if ci >= s.mem.ch.len() {
                    None
                } else if s.mem.ch[ci as int].len() == 0 {
                    Some(Ok(seq![]))
                } else if ix >= s.mem.data.len() {
                    None
                } else {
                    Some(
                        Ok(
                            seq![
                                MemV {
                                    data: s.mem.data.update(ix as int, s.mem.ch[ci as int][0]),
                                    ts: s.mem.ts,
                                    ch: s.mem.ch.update(ci as int, s.mem.ch[ci as int].remove(0)),
                                },
                            ],
                        ),
                    )
                },
            },
        },
    }
}

// ---------------------------------------------------------------------------
// One step of one process.

/// The successors of each choice of a branch from `k` on, after `acc`.
pub open(crate) spec fn branch_from(
    p: Program,
    s: StateV,
    choices: Seq<(CG, InstrPtr)>,
    k: int,
    acc: Seq<(MemV, u32)>,
) -> Option<Result<Seq<(MemV, u32)>, StepError>>
    decreases choices.len() - k,
{
    if k < 0 || k >= choices.len() {
        Some(Ok(acc))
    } else {
        match eval_guard(p, s, choices[k].0) {
            None => None,
            Some(Err(err)) => Some(Err(err)),
            Some(Ok(ms)) => branch_from(
                p,
                s,
                choices,
                k + 1,
                acc + ms.map_values(|m: MemV| (m, choices[k].1.0)),
            ),
        }
    }
}

pub open spec fn with_data(m: MemV, d: Seq<i32>) -> MemV {
    MemV { data: d, ts: m.ts, ch: m.ch }
}

pub open spec fn with_spaces(m: MemV, ts: Seq<Seq<Seq<i32>>>) -> MemV {
    MemV { data: m.data, ts: ts, ch: m.ch }
}

pub open spec fn with_channels(m: MemV, ch: Seq<Seq<i32>>) -> MemV {
    MemV { data: m.data, ts: m.ts, ch: ch }
}

/// The successors of the process at `ptr`: each a memory and the process's
/// next instruction. `Halt` and the synchronous instructions have none of
/// their own (they are `Err(Halt)` and `Err(Stuck)`).
pub open(crate) spec fn step_at(p: Program, s: StateV, ptr: u32) -> Option<Result<Seq<(MemV, u32)>, StepError>> {
    if ptr >= p.instrs@.len() {
        None
    } else {
        let next = (ptr + 1) as u32;
        match p.instrs@[ptr as int] {
            Instr::Nop => Some(Ok(seq![(s.mem, next)])),
            Instr::Assign(t, e) => match aeval(p, s, e) {
                None => None,
                Some(Err(err)) => Some(Err(err)),
                Some(Ok(v)) => match target_index(p, s, t) {
                    None => None,
                    Some(Err(err)) => Some(Err(err)),
                    Some(Ok(ix)) => if ix < s.mem.data.len() {
                        Some(Ok(seq![(with_data(s.mem, s.mem.data.update(ix as int, v)), next)]))
                    } else {
                        None
                    },
                },
            },
            Instr::Branch { choices, otherwise } => match branch_from(p, s, choices@, 0, seq![]) {
                None => None,
                Some(Err(err)) => Some(Err(err)),
                Some(Ok(v)) => if v.len() == 0 {
                    match otherwise {
                        Some(t) => Some(Ok(seq![(s.mem, t.0)])),
                        None => Some(Err(StepError::Stuck)),
                    }
                } else {
                    Some(Ok(v))
                },
            },
            Instr::Goto(t) => Some(Ok(seq![(s.mem, t.0)])),
            Instr::Halt => Some(Err(StepError::Halt)),
            Instr::Put(size, ix, args) => match values_of(p, s, args@) {
                None => None,
                Some(Err(err)) => Some(Err(err)),
                Some(Ok(vs)) => if ix >= s.mem.ts.len() {
                    None
                } else {
                    let put = with_spaces(s.mem, s.mem.ts.update(ix as int, s.mem.ts[ix as int].push(vs)));
                    match size {
                        BufferSize::Finite(max) => if s.mem.ts[ix as int].len() < max {
                            Some(Ok(seq![(put, next)]))
                        } else {
                            Some(Err(StepError::Stuck))
                        },
                        BufferSize::Infinite => Some(Ok(seq![(put, next)])),
                    }
                },
            },
            Instr::Get(ty, ix, fields) => match_space(p, s, ty, ix, fields@, ptr, true),
            Instr::Query(ty, ix, fields) => match_space(p, s, ty, ix, fields@, ptr, false),
            Instr::Send(size, ci, e) => match aeval(p, s, e) {
                None => None,
                Some(Err(err)) => Some(Err(err)),
                Some(Ok(v)) => if ci >= s.mem.ch.len() {
                    None
                } else {
                    let sent = with_channels(s.mem, s.mem.ch.update(ci as int, s.mem.ch[ci as int].push(v)));
                    match size {
                        BufferSize::Finite(max) => if s.mem.ch[ci as int].len() < max {
                            Some(Ok(seq![(sent, next)]))
                        } else {
                            Some(Err(StepError::Stuck))
                        },
                        BufferSize::Infinite => Some(Ok(seq![(sent, next)])),
                    }
                },
            },
            Instr::Receive(ci, t) => match target_index(p, s, t) {
                None => None,
                Some(Err(err)) => Some(Err(err)),
                Some(Ok(ix)) => if ci >= s.mem.ch.len() {
                    None
                } else if s.mem.ch[ci as int].len() == 0 {
                    Some(Err(StepError::Stuck))
                } else if ix >= s.mem.data.len() {
                    None
                } else {
                    let got = MemV {
                        data: s.mem.data.update(ix as int, s.mem.ch[ci as int][0]),
                        ts: s.mem.ts,
                        ch: s.mem.ch.update(ci as int, s.mem.ch[ci as int].remove(0)),
                    };
                    Some(Ok(seq![(got, next)]))
                },
            },
            Instr::SyncSend { .. } => Some(Err(StepError::Stuck)),
            Instr::SyncReceive { .. } => Some(Err(StepError::Stuck)),
            Instr::Broadcast { .. } => Some(Err(StepError::Stuck)),
            Instr::Gather { .. } => Some(Err(StepError::Stuck)),
        }
    }
}

/// The truth value of a predicate on an asynchronous channel.
pub open(crate) spec fn channel_formula_eval(p: Program, s: StateV, cf: ChannelFormula) -> Option<
    Result<bool, StepError>,
> {
    match cf {
        ChannelFormula::ChannelHead(c, e) => match aeval(p, s, e) {
            None => None,
            Some(Err(err)) => Some(Err(err)),
            Some(Ok(v)) => match channel_index(p, c.0@) {
                None => None,
                Some(ci) => if ci >= s.mem.ch.len() {
                    None
                } else {
                    Some(Ok(s.mem.ch[ci as int].len() > 0 && s.mem.ch[ci as int][0] == v))
                },
            },
        },
        ChannelFormula::ChannelContains(c, e) => match aeval(p, s, e) {
            None => None,
            Some(Err(err)) => Some(Err(err)),
            Some(Ok(v)) => match channel_index(p, c.0@) {
                None => None,
                Some(ci) => if ci >= s.mem.ch.len() {
                    None
                } else {
                    Some(Ok(s.mem.ch[ci as int].contains(v)))
                },
            },
        },
    }
}

// ---------------------------------------------------------------------------
// Synchronous communication between processes.

/// The instruction process `i` is at.
pub open(crate) spec fn instr_of(p: Program, s: StateV, i: int) -> Option<Instr> {
    if 0 <= i < s.ptrs.len() && s.ptrs[i] < p.instrs@.len() {
        Some(p.instrs@[s.ptrs[i] as int])
    } else {
        None
    }
}

pub open spec fn bumped(x: u32) -> u32 {
    wrapping_add_u32(x, 1)
}

pub open spec fn same_channel(a: ChannelName, b: ChannelName) -> bool {
    a.0@ == b.0@
}

/// The receiving choices on channel `c` of a branch of process `j`.
pub open(crate) spec fn branch_receivers(choices: Seq<(CG, InstrPtr)>, c: ChannelName, j: int) -> Seq<
    (int, Target, Option<u32>),
>
    decreases choices.len(),
{
    if choices.len() == 0 {
        seq![]
    } else {
        let rest = branch_receivers(choices.drop_last(), c, j);
        match choices.last().0 {
            CG::Receive(c2, t) => if same_channel(c, c2) {
                rest.push((j, t, Some(choices.last().1.0)))
            } else {
                rest
            },
            _ => rest,
        }
    }
}

/// The processes other than `i` from `j` on that can receive a broadcast on
/// channel `c`: each process, its target and the instruction it goes to
/// (`None` for the next one).
pub open(crate) spec fn receivers_from(
    p: Program,
    s: StateV,
    i: int,
    c: ChannelName,
    j: int,
    acc: Seq<(int, Target, Option<u32>)>,
) -> Option<Seq<(int, Target, Option<u32>)>>
    decreases s.ptrs.len() - j,
{
    if j < 0 || j >= s.ptrs.len() {
        Some(acc)
    } else if j == i {
        receivers_from(p, s, i, c, j + 1, acc)
    } else {
        match instr_of(p, s, j) {
            None => None,
            Some(Instr::SyncReceive { channel, target }) => if same_channel(c, channel) {
                receivers_from(p, s, i, c, j + 1, acc.push((j, target, None)))
            } else {
                receivers_from(p, s, i, c, j + 1, acc)
            },
            Some(Instr::Branch { choices, .. }) => receivers_from(
                p,
                s,
                i,
                c,
                j + 1,
                acc + branch_receivers(choices@, c, j),
            ),
            Some(_) => receivers_from(p, s, i, c, j + 1, acc),
        }
    }
}

/// The state after the receivers from `k` on take the broadcast value.
pub open(crate) spec fn deliver(
    p: Program,
    s: StateV,
    value: i32,
    rs: Seq<(int, Target, Option<u32>)>,
    k: int,
    ns: StateV,
) -> Option<Result<StateV, StepError>>
    decreases rs.len() - k,
{
    if k < 0 || k >= rs.len() {
        Some(Ok(ns))
    } else {
        let (j, target, bp) = rs[k];
        match target_index(p, s, target) {
            None => None,
            Some(Err(err)) => Some(Err(err)),
            Some(Ok(ix)) => if ix >= ns.mem.data.len() || j < 0 || j >= ns.ptrs.len() {
                None
            } else {
                let next = match bp {
                    Some(t) => t,
                    None => bumped(ns.ptrs[j]),
                };
                deliver(
                    p,
                    s,
                    value,
                    rs,
                    k + 1,
                    StateV {
                        ptrs: ns.ptrs.update(j, next),
                        mem: with_data(ns.mem, ns.mem.data.update(ix as int, value)),
                    },
                )
            },
        }
    }
}

/// The transition of a broadcast by process `i`, if enough processes can
/// receive it.
pub open(crate) spec fn broadcast_steps(p: Program, s: StateV, i: int, c: ChannelName, k: i32, expr: AExpr) -> Option<
    Result<Seq<StateV>, StepError>,
> {
    match aeval(p, s, expr) {
        None => None,
        Some(Err(err)) => Some(Err(err)),
        Some(Ok(value)) => match receivers_from(p, s, i, c, 0, seq![]) {
            None => None,
            Some(rs) => if k >= 0 && k <= rs.len() {
                match deliver(p, s, value, rs, 0, s) {
                    None => None,
                    Some(Err(err)) => Some(Err(err)),
                    Some(Ok(ns)) => Some(
                        Ok(seq![StateV { ptrs: ns.ptrs.update(i, bumped(s.ptrs[i])), mem: ns.mem }]),
                    ),
                }
            } else {
                Some(Ok(seq![]))
            },
        },
    }
}

/// The sending choices on channel `c` of a branch of process `j` from `k`
/// on, each with the value it sends.
pub open(crate) spec fn branch_senders(
    p: Program,
    s: StateV,
    choices: Seq<(CG, InstrPtr)>,
    c: ChannelName,
    j: int,
    k: int,
    acc: Seq<(int, i32, Option<u32>)>,
) -> Option<Result<Seq<(int, i32, Option<u32>)>, StepError>>
    decreases choices.len() - k,
{
    if k < 0 || k >= choices.len() {
        Some(Ok(acc))
    } else {
        match choices[k].0 {
            CG::Send(c2, e) => if same_channel(c, c2) {
                match aeval(p, s, e) {
                    None => None,
                    Some(Err(err)) => Some(Err(err)),
                    Some(Ok(v)) => branch_senders(
                        p,
                        s,
                        choices,
                        c,
                        j,
                        k + 1,
                        acc.push((j, v, Some(choices[k].1.0))),
                    ),
                }
            } else {
                branch_senders(p, s, choices, c, j, k + 1, acc)
            },
            _ => branch_senders(p, s, choices, c, j, k + 1, acc),
        }
    }
}

/// The processes other than `i` from `j` on that can send to a gather on
/// channel `c`: each process, the value and the instruction it goes to.
pub open(crate) spec fn senders_from(
    p: Program,
    s: StateV,
    i: int,
    c: ChannelName,
    j: int,
    acc: Seq<(int, i32, Option<u32>)>,
) -> Option<Result<Seq<(int, i32, Option<u32>)>, StepError>>
    decreases s.ptrs.len() - j,
{
    if j < 0 || j >= s.ptrs.len() {
        Some(Ok(acc))
    } else if j == i {
        senders_from(p, s, i, c, j + 1, acc)
    } else {
        match instr_of(p, s, j) {
            None => None,
            Some(Instr::SyncSend { channel, expr }) => if same_channel(c, channel) {
                match aeval(p, s, expr) {
                    None => None,
                    Some(Err(err)) => Some(Err(err)),
                    Some(Ok(v)) => senders_from(p, s, i, c, j + 1, acc.push((j, v, None))),
                }
            } else {
                senders_from(p, s, i, c, j + 1, acc)
            },
            Some(Instr::Branch { choices, .. }) => match branch_senders(p, s, choices@, c, j, 0, acc) {
                None => None,
                Some(Err(err)) => Some(Err(err)),
                Some(Ok(acc2)) => senders_from(p, s, i, c, j + 1, acc2),
            },
            Some(_) => senders_from(p, s, i, c, j + 1, acc),
        }
    }
}

/// The state after the senders, in the order of `perm` from position `idx`
/// on, have written their values to the array (as far as it reaches) and
/// moved on.
pub open(crate) spec fn gather_into(
    senders: Seq<(int, i32, Option<u32>)>,
    perm: Seq<usize>,
    base: u32,
    len: u32,
    idx: int,
    ns: StateV,
) -> Option<StateV>
    decreases perm.len() - idx,
{
    if idx < 0 || idx >= perm.len() {
        Some(ns)
    } else if perm[idx] >= senders.len() {
        None
    } else {
        let (j, value, bp) = senders[perm[idx] as int];
        let written = if idx < len {
            if base + idx < ns.mem.data.len() {
                Some(with_data(ns.mem, ns.mem.data.update(base + idx, value)))
            } else {
                None
            }
        } else {
            Some(ns.mem)
        };
        match written {
            None => None,
            Some(m) => if j < 0 || j >= ns.ptrs.len() {
                None
            } else {
                let next = match bp {
                    Some(t) => t,
                    None => bumped(ns.ptrs[j]),
                };
                gather_into(senders, perm, base, len, idx + 1, StateV { ptrs: ns.ptrs.update(j, next), mem: m })
            },
        }
    }
}

/// The transitions of a gather by process `i`, one per ordering of the
/// senders, from ordering `q` on, after `acc`.
pub open(crate) spec fn gather_orderings(
    p: Program,
    s: StateV,
    i: int,
    target: Target,
    senders: Seq<(int, i32, Option<u32>)>,
    perms: Seq<Seq<usize>>,
    base: u32,
    len: u32,
    q: int,
    acc: Seq<StateV>,
) -> Option<Result<Seq<StateV>, StepError>>
    decreases perms.len() - q,
{
    if q < 0 || q >= perms.len() {
        Some(Ok(acc))
    } else {
        match gather_into(senders, perms[q], base, len, 0, s) {
            None => None,
            Some(ns) => match target_index(p, s, target) {
                None => None,
                Some(Err(err)) => Some(Err(err)),
                Some(Ok(ix)) => if ix >= ns.mem.data.len() || i < 0 || i >= s.ptrs.len() {
                    None
                } else {
                    let count = (if perms[q].len() <= len { perms[q].len() as int } else { len as int }) as i32;
                    let st = StateV {
                        ptrs: ns.ptrs.update(i, bumped(s.ptrs[i])),
                        mem: with_data(ns.mem, ns.mem.data.update(ix as int, count)),
                    };
                    gather_orderings(p, s, i, target, senders, perms, base, len, q + 1, acc.push(st))
                },
            },
        }
    }
}

/// The transitions of a gather by process `i` into `array`, the number of
/// values received going to `target`.
pub open(crate) spec fn gather_steps(
    p: Program,
    s: StateV,
    i: int,
    c: ChannelName,
    k: i32,
    array: Seq<char>,
    target: Target,
) -> Option<Result<Seq<StateV>, StepError>> {
    if target matches Target::Array(arr, _) && arr.0@ == array {
        Some(Err(StepError::SameArrayGather))
    } else {
        match array_slot(p, array) {
            None => None,
            Some(slot) => {
                let base = p.targets@[slot].base_index;
                let len = p.targets@[slot].length;
                match senders_from(p, s, i, c, 0, seq![]) {
                    None => None,
                    Some(Err(err)) => Some(Err(err)),
                    Some(Ok(senders)) => if k >= 0 && senders.len() >= k {
                        gather_orderings(
                            p,
                            s,
                            i,
                            target,
                            senders,
                            index_permutations(senders.len() as usize),
                            base,
                            len,
                            0,
                            seq![],
                        )
                    } else {
                        Some(Ok(seq![]))
                    },
                }
            },
        }
    }
}

/// The transitions started by process `i` alone: a broadcast or a gather.
pub open(crate) spec fn collective_steps(p: Program, s: StateV, i: int) -> Option<Result<Seq<StateV>, StepError>> {
    match instr_of(p, s, i) {
        None => None,
        Some(Instr::Broadcast { channel, k, expr }) => broadcast_steps(p, s, i, channel, k, expr),
        Some(Instr::Gather { channel, k, array, target }) => gather_steps(p, s, i, channel, k, array.0@, target),
        Some(_) => Some(Ok(seq![])),
    }
}

/// The state after a synchronous message `expr` is received into `target`
/// with the processes going to `ptrs`; `Ok(None)` where the value cannot be
/// computed.
pub open(crate) spec fn handover(p: Program, s: StateV, expr: AExpr, target: Target, ptrs: Seq<u32>) -> Option<
    Result<Option<StateV>, StepError>,
> {
    match aeval(p, s, expr) {
        None => None,
        Some(Err(_)) => Some(Ok(None)),
        Some(Ok(v)) => match target_index(p, s, target) {
            None => None,
            Some(Err(err)) => Some(Err(err)),
            Some(Ok(ix)) => if ix >= s.mem.data.len() {
                None
            } else {
                Some(Ok(Some(StateV { ptrs: ptrs, mem: with_data(s.mem, s.mem.data.update(ix as int, v)) })))
            },
        },
    }
}

/// Appends the result of a handover, or stops at its error.
pub open spec fn add_handover(
    h: Option<Result<Option<StateV>, StepError>>,
    acc: Seq<StateV>,
) -> Option<Result<Seq<StateV>, StepError>> {
    match h {
        None => None,
        Some(Err(err)) => Some(Err(err)),
        Some(Ok(None)) => Some(Ok(acc)),
        Some(Ok(Some(st))) => Some(Ok(acc.push(st))),
    }
}

/// Handovers between a branch of `i` (choices from `a` on) and a branch of
/// `j` (choices from `b` on).
pub open(crate) spec fn pair_branches(
    p: Program,
    s: StateV,
    i: int,
    j: int,
    ci: Seq<(CG, InstrPtr)>,
    cj: Seq<(CG, InstrPtr)>,
    a: int,
    b: int,
    acc: Seq<StateV>,
) -> Option<Result<Seq<StateV>, StepError>>
    decreases ci.len() - a, cj.len() - b,
{
    if a < 0 || a >= ci.len() {
        Some(Ok(acc))
    } else if b < 0 || b >= cj.len() {
        pair_branches(p, s, i, j, ci, cj, a + 1, 0, acc)
    } else {
        let h = match (ci[a].0, cj[b].0) {
            (CG::Send(c1, expr), CG::Receive(c2, t)) => if same_channel(c1, c2) {
                handover(p, s, expr, t, s.ptrs.update(i, ci[a].1.0).update(j, cj[b].1.0))
            } else {
                Some(Ok(None))
            },
            _ => Some(Ok(None)),
        };
        match add_handover(h, acc) {
            Some(Ok(acc2)) => pair_branches(p, s, i, j, ci, cj, a, b + 1, acc2),
            other => other,
        }
    }
}

/// Handovers from a send of `i` to the receiving choices of a branch of `j`
/// from `b` on.
pub open(crate) spec fn pair_send_branch(
    p: Program,
    s: StateV,
    i: int,
    j: int,
    c1: ChannelName,
    expr: AExpr,
    cj: Seq<(CG, InstrPtr)>,
    b: int,
    acc: Seq<StateV>,
) -> Option<Result<Seq<StateV>, StepError>>
    decreases cj.len() - b,
{
    if b < 0 || b >= cj.len() {
        Some(Ok(acc))
    } else {
        let h = match cj[b].0 {
            CG::Receive(c2, t) => if same_channel(c1, c2) {
                handover(p, s, expr, t, s.ptrs.update(i, bumped(s.ptrs[i])).update(j, cj[b].1.0))
            } else {
                Some(Ok(None))
            },
            _ => Some(Ok(None)),
        };
        match add_handover(h, acc) {
            Some(Ok(acc2)) => pair_send_branch(p, s, i, j, c1, expr, cj, b + 1, acc2),
            other => other,
        }
    }
}

/// Handovers from the sending choices of a branch of `i` from `a` on to a
/// receive of `j`.
pub open(crate) spec fn pair_branch_receive(
    p: Program,
    s: StateV,
    i: int,
    j: int,
    ci: Seq<(CG, InstrPtr)>,
    c2: ChannelName,
    target: Target,
    a: int,
    acc: Seq<StateV>,
) -> Option<Result<Seq<StateV>, StepError>>
    decreases ci.len() - a,
{
    if a < 0 || a >= ci.len() {
        Some(Ok(acc))
    } else {
        let h = match ci[a].0 {
            CG::Send(c1, expr) => if same_channel(c1, c2) {
                handover(p, s, expr, target, s.ptrs.update(i, ci[a].1.0).update(j, bumped(s.ptrs[j])))
            } else {
                Some(Ok(None))
            },
            _ => Some(Ok(None)),
        };
        match add_handover(h, acc) {
            Some(Ok(acc2)) => pair_branch_receive(p, s, i, j, ci, c2, target, a + 1, acc2),
            other => other,
        }
    }
}

/// The handovers between process `i` and process `j`.
pub open(crate) spec fn pair_steps(p: Program, s: StateV, i: int, j: int, acc: Seq<StateV>) -> Option<
    Result<Seq<StateV>, StepError>,
> {
    match (instr_of(p, s, i), instr_of(p, s, j)) {
        (None, _) => None,
        (_, None) => None,
        (
            Some(Instr::SyncSend { channel: c1, expr }),
            Some(Instr::SyncReceive { channel: c2, target }),
        ) => if same_channel(c1, c2) {
            add_handover(
                handover(p, s, expr, target, s.ptrs.update(i, bumped(s.ptrs[i])).update(j, bumped(s.ptrs[j]))),
                acc,
            )
        } else {
            Some(Ok(acc))
        },
        (Some(Instr::Branch { choices: ci, .. }), Some(Instr::Branch { choices: cj, .. })) =>
            pair_branches(p, s, i, j, ci@, cj@, 0, 0, acc),
        (Some(Instr::SyncSend { channel: c1, expr }), Some(Instr::Branch { choices: cj, .. })) =>
            pair_send_branch(p, s, i, j, c1, expr, cj@, 0, acc),
        (Some(Instr::Branch { choices: ci, .. }), Some(Instr::SyncReceive { channel: c2, target })) =>
            pair_branch_receive(p, s, i, j, ci@, c2, target, 0, acc),
        _ => Some(Ok(acc)),
    }
}

/// The handovers between process `i` and the processes from `j` on.
pub open(crate) spec fn pairs_from(p: Program, s: StateV, i: int, j: int, acc: Seq<StateV>) -> Option<
    Result<Seq<StateV>, StepError>,
>
    decreases s.ptrs.len() - j,
{
    if j < 0 || j >= s.ptrs.len() {
        Some(Ok(acc))
    } else if j == i {
        pairs_from(p, s, i, j + 1, acc)
    } else {
        match pair_steps(p, s, i, j, acc) {
            Some(Ok(acc2)) => pairs_from(p, s, i, j + 1, acc2),
            other => other,
        }
    }
}

/// The synchronous transitions started by processes `i` and onwards.
pub open(crate) spec fn sync_from(p: Program, s: StateV, i: int, acc: Seq<StateV>) -> Option<
    Result<Seq<StateV>, StepError>,
>
    decreases s.ptrs.len() - i,
{
    if i < 0 || i >= s.ptrs.len() {
        Some(Ok(acc))
    } else {
        match collective_steps(p, s, i) {
            None => None,
            Some(Err(err)) => Some(Err(err)),
            Some(Ok(ts)) => match pairs_from(p, s, i, 0, acc + ts) {
                Some(Ok(acc2)) => sync_from(p, s, i + 1, acc2),
                other => other,
            },
        }
    }
}

/// All synchronous transitions of a state: for each process in turn, its
/// broadcast or gather, then its handovers with every other process.
pub open(crate) spec fn sync_steps(p: Program, s: StateV) -> Option<Result<Seq<StateV>, StepError>> {
    sync_from(p, s, 0, seq![])
}

// ---------------------------------------------------------------------------
// Whole steps of a state.

/// The control flow of the program is well founded.
pub open(crate) spec fn program_flow_ok(p: Program) -> bool {
    flow_ok(p.instrs@)
}

/// How far `x` is from an instruction that is neither a `Goto` nor a `Nop`.
pub open spec fn jump_measure(instrs: Seq<Instr>, x: u32) -> int {
    if x < instrs.len() && (instrs[x as int] is Goto || instrs[x as int] is Nop) {
        instrs.len() - x + 1
    } else {
        0
    }
}

pub open(crate) spec fn program_jump_measure(p: Program, x: u32) -> int {
    jump_measure(p.instrs@, x)
}

/// The instruction reached from `x` by following `Goto`s and skipping
/// `Nop`s.
pub open(crate) spec fn follow(p: Program, x: u32) -> Option<u32>
    decreases program_jump_measure(p, x),
    when program_flow_ok(p)
{
    if x >= p.instrs@.len() {
        None
    } else {
        proof {
            assert(instr_flow_ok(p.instrs@, x as int));
        }
        match p.instrs@[x as int] {
            Instr::Goto(q) => follow(p, q.0),
            Instr::Nop => follow(p, (x + 1) as u32),
            _ => Some(x),
        }
    }
}

/// The state with every process moved past `Goto`s and `Nop`s.
pub open(crate) spec fn follow_state(p: Program, st: StateV) -> Option<StateV> {
    if exists|i: int| 0 <= i < st.ptrs.len() && (#[trigger] follow(p, st.ptrs[i])) is None {
        None
    } else {
        Some(StateV { ptrs: Seq::new(st.ptrs.len(), |i: int| follow(p, st.ptrs[i]).unwrap()), mem: st.mem })
    }
}

/// The successors of process `i` alone.
pub open(crate) spec fn step_exe(p: Program, s: StateV, i: int) -> Option<Result<Seq<StateV>, StepError>> {
    match step_at(p, s, s.ptrs[i]) {
        None => None,
        Some(Err(err)) => Some(Err(err)),
        Some(Ok(v)) => Some(
            Ok(v.map_values(|x: (MemV, u32)| StateV { ptrs: s.ptrs.update(i, x.1), mem: x.0 })),
        ),
    }
}

/// A successor once it has moved past `Goto`s and `Nop`s (`None`: a panic).
pub open(crate) spec fn settled(p: Program, st: StateV) -> Option<Result<StateV, StepError>> {
    match follow_state(p, st) {
        None => None,
        Some(x) => Some(Ok(x)),
    }
}

/// The items a set of successors contributes: each settled successor, or
/// the error, or a panic.
pub open(crate) spec fn items_of(p: Program, r: Option<Result<Seq<StateV>, StepError>>) -> Seq<
    Option<Result<StateV, StepError>>,
> {
    match r {
        None => seq![None],
        Some(Err(err)) => seq![Some(Err(err))],
        Some(Ok(v)) => v.map_values(|st: StateV| settled(p, st)),
    }
}

/// The items of the processes below `k`, in order.
pub open(crate) spec fn regular_items(p: Program, s: StateV, k: int) -> Seq<Option<Result<StateV, StepError>>>
    decreases k,
{
    if k <= 0 || k > s.ptrs.len() {
        seq![]
    } else {
        regular_items(p, s, k - 1) + items_of(p, step_exe(p, s, k - 1))
    }
}

/// Everything a state can do, in the order the interpreter produces it:
/// the successors (or the error) of each process in turn, then the
/// synchronous transitions (or their error). `None` where computing the
/// synchronous transitions panics; an item `None` where producing that item
/// panics.
pub open(crate) spec fn step_items(p: Program, s: StateV) -> Option<Seq<Option<Result<StateV, StepError>>>> {
    match sync_steps(p, s) {
        None => None,
        Some(r) => Some(regular_items(p, s, s.ptrs.len() as int) + items_of(p, Some(r))),
    }
}

/// The successors among the items, in order; `None` if an item panics.
pub open spec fn successors_of(items: Seq<Option<Result<StateV, StepError>>>) -> Option<Seq<StateV>>
    decreases items.len(),
{
    if items.len() == 0 {
        Some(seq![])
    } else {
        match successors_of(items.drop_last()) {
            None => None,
            Some(v) => match items.last() {
                None => None,
                Some(Ok(x)) => Some(v.push(x)),
                Some(Err(_)) => Some(v),
            },
        }
    }
}

/// The successor states of a state (`None`: the interpreter panics).
pub open(crate) spec fn step_spec(p: Program, s: StateV) -> Option<Seq<StateV>> {
    match step_items(p, s) {
        None => None,
        Some(items) => successors_of(items),
    }
}

/// Whether every item from `k` on satisfies `ok`, looking no further than
/// the first that does not (a panicking item there or before: `None`).
pub open spec fn all_from(
    items: Seq<Option<Result<StateV, StepError>>>,
    ok: spec_fn(StepError) -> bool,
    k: int,
) -> Option<bool>
    decreases items.len() - k,
{
    if k < 0 || k >= items.len() {
        Some(true)
    } else {
        match items[k] {
            None => None,
            Some(Err(e)) => if ok(e) {
                all_from(items, ok, k + 1)
            } else {
                Some(false)
            },
            Some(Ok(_)) => Some(false),
        }
    }
}

/// Whether some item from `k` on is the error `e`, looking no further than
/// the first that is.
pub open spec fn any_from(items: Seq<Option<Result<StateV, StepError>>>, e: StepError, k: int) -> Option<bool>
    decreases items.len() - k,
{
    if k < 0 || k >= items.len() {
        Some(false)
    } else {
        match items[k] {
            None => None,
            Some(Err(x)) => if x == e {
                Some(true)
            } else {
                any_from(items, e, k + 1)
            },
            Some(Ok(_)) => any_from(items, e, k + 1),
        }
    }
}

pub open spec fn is_halt(e: StepError) -> bool {
    e == StepError::Halt
}

pub open spec fn is_stuck_or_halt(e: StepError) -> bool {
    e == StepError::Stuck || e == StepError::Halt
}

/// Whether every process has halted and nothing else can happen.
pub open(crate) spec fn terminated_spec(p: Program, s: StateV) -> Option<bool> {
    match step_items(p, s) {
        None => None,
        Some(items) => all_from(items, |e: StepError| is_halt(e), 0),
    }
}

/// Whether nothing can happen, and some process is stuck.
pub open(crate) spec fn stuck_spec(p: Program, s: StateV) -> Option<bool> {
    match step_items(p, s) {
        None => None,
        Some(items) => match (all_from(items, |e: StepError| is_stuck_or_halt(e), 0), any_from(items, StepError::Stuck, 0)) {
            (Some(a), Some(b)) => Some(a && b),
            _ => None,
        },
    }
}

} // verus!

use vstd::prelude::*;

use crate::ast::{BExpr, BufferSize, Field, LogicOp, OperationP, RelOp, TupleSpaceName, CG};
use crate::program::{
    copy_ints, copy_ptrs, copy_spaces, copy_tuples, mems_view, outs_view, spaces_view,
    tuples_view, MemV, Memory, Program, State, StateV, StepError,
};
use crate::semantics::{
    beval, bexpr_tag, eval_guard, find_tuple_p, guard_after, guard_mems, guard_tag, logic_apply,
    rel_apply, with_mem,
};

verus! {

pub(crate) open spec fn opt_mems(r: Option<Vec<Memory>>) -> Option<Seq<MemV>> {
    match r {
        None => None,
        Some(v) => Some(mems_view(v@)),
    }
}

pub(crate) open spec fn res_mems(r: Option<Result<Vec<Memory>, StepError>>) -> Option<
    Result<Seq<MemV>, StepError>,
> {
    match r {
        None => None,
        Some(Err(e)) => Some(Err(e)),
        Some(Ok(v)) => Some(Ok(mems_view(v@))),
    }
}

fn single_memory(m: Memory) -> (r: Vec<Memory>)
    ensures
        mems_view(r@) == seq![m@],
{
    let mut v: Vec<Memory> = Vec::new();
    v.push(m);
    assert(mems_view(v@) =~= seq![m@]);
    v
}

fn no_memory() -> (r: Vec<Memory>)
    ensures
        mems_view(r@) == Seq::<MemV>::empty(),
{
    let v: Vec<Memory> = Vec::new();
    assert(mems_view(v@) =~= Seq::<MemV>::empty());
    v
}

impl State {
    /// This state with its memory replaced.
    fn with_memory(&self, m: Memory) -> (r: State)
        ensures
            r@ == with_mem(self@, m@),
    {
        State { ptrs: copy_ptrs(&self.ptrs), memory: m }
    }

    /// The memories a `getP`/`queryP` predicate can lead to.
    fn find_tuple_p(&self, p: &Program, name: &TupleSpaceName, fields: &Vec<Field>, remove: bool) -> (r:
        Option<Vec<Memory>>)
        ensures
            opt_mems(r) == find_tuple_p(*p, self@, name.0@, fields@, remove),
    {
        let ix = match p.tuple_space_index(&name.0) {
            None => return None,
            Some(i) => i,
        };
        if ix as usize >= p.tuple_spaces.len() {
            return None;
        }
        let ts_type = p.tuple_spaces[ix as usize].space_type;
        match self.match_space(ts_type, ix, fields, p, 0, remove) {
            None => None,
            Some(Err(_)) => Some(no_memory()),
            Some(Ok(v)) => {
                let mut out: Vec<Memory> = Vec::new();
                let mut i: usize = 0;
                while i < v.len()
                    invariant
                        i <= v@.len(),
                        out@.len() == i,
                        forall|j: int| 0 <= j < i ==> #[trigger] out@[j]@ == v@[j].0@,
                    decreases v@.len() - i,
                {
                    out.push(v[i].0.clone());
                    i += 1;
                }
                assert(mems_view(out@) =~= outs_view(v@).map_values(|x: (MemV, u32)| x.0));
                Some(out)
            },
        }
    }

    /// The memories reached by evaluating `r` as a guard in each of `ms`.
    fn guard_after(&self, p: &Program, r: &BExpr, ms: &Vec<Memory>) -> (res: Option<Vec<Memory>>)
        ensures
            opt_mems(res) == guard_after(*p, self@, *r, mems_view(ms@)),
        decreases r, 2int, 0int,
    {
        let ghost msv = mems_view(ms@);
        let mut acc: Vec<Memory> = Vec::new();
        let n = ms.len();
        let mut i: usize = 0;
        assert(msv.take(0) =~= Seq::<MemV>::empty());
        assert(mems_view(acc@) =~= Seq::<MemV>::empty());
        while i < n
            invariant
                n == ms@.len(),
                msv == mems_view(ms@),
                i <= n,
                guard_after(*p, self@, *r, msv.take(i as int)) == Some(mems_view(acc@)),
            decreases n - i,
        {
            assert(msv.take(i + 1).drop_last() =~= msv.take(i as int));
            assert(msv.take(i + 1).last() == ms@[i as int]@);
            let st = self.with_memory(ms[i].clone());
            match st.eval_bool_guard(p, r) {
                None => {
                    proof {
                        lemma_guard_after_none(*p, self@, *r, msv, i + 1);
                    }
                    return None;
                },
                Some(x) => {
                    let ghost before = mems_view(acc@);
                    let ghost xv = mems_view(x@);
                    let mut x = x;
                    acc.append(&mut x);
                    assert(mems_view(acc@) =~= before + xv);
                },
            }
            i += 1;
        }
        assert(msv.take(n as int) =~= msv);
        Some(acc)
    }

    /// The memories a boolean guard can lead to.
    pub(crate) fn eval_bool_guard(&self, p: &Program, expr: &BExpr) -> (r: Option<Vec<Memory>>)
        ensures
            opt_mems(r) == guard_mems(*p, self@, *expr),
        decreases expr, guard_tag(*expr), 0int,
    {
        match expr {
            BExpr::OP(OperationP::GetP(t, f)) => self.find_tuple_p(p, t, f, true),
            BExpr::OP(OperationP::QueryP(t, f)) => self.find_tuple_p(p, t, f, false),
            BExpr::OP(OperationP::PutP(t, args)) => {
                let ix = match p.tuple_space_index(&t.0) {
                    None => return None,
                    Some(i) => i as usize,
                };
                if ix >= p.tuple_spaces.len() || ix >= self.memory.tuple_spaces.len() {
                    return None;
                }
                let full = match p.tuple_spaces[ix].size {
                    BufferSize::Finite(max) => self.memory.tuple_spaces[ix].len() >= max as usize,
                    BufferSize::Infinite => false,
                };
                if full {
                    return Some(no_memory());
                }
                let values = match self.values_or_zero(args, p) {
                    None => return None,
                    Some(v) => v,
                };
                let mut ts = copy_spaces(&self.memory.tuple_spaces);
                let ghost tsv = spaces_view(self.memory.tuple_spaces);
                assert(ts@.len() == spaces_view(ts).len());
                let mut inner: Vec<Vec<i32>> = Vec::new();
                ts.set_and_swap(ix, &mut inner);
                let ghost inner0 = inner;
                assert(tuples_view(inner0) == tsv[ix as int]);
                let ghost vals = values@;
                inner.push(values);
                assert(tuples_view(inner) =~= tuples_view(inner0).push(vals));
                ts.set(ix, inner);
                assert(spaces_view(ts) =~= tsv.update(ix as int, tsv[ix as int].push(vals)));
                let m = Memory {
                    data: copy_ints(&self.memory.data),
                    tuple_spaces: ts,
                    channels: copy_tuples(&self.memory.channels),
                };
                Some(single_memory(m))
            },
            BExpr::Logic(l, op, r) => {
                if *op == LogicOp::And || *op == LogicOp::Land {
                    match self.eval_bool_guard(p, l) {
                        None => None,
                        Some(ms) => self.guard_after(p, r, &ms),
                    }
                } else if *op == LogicOp::Or || *op == LogicOp::Lor {
                    match self.eval_bool_guard(p, l) {
                        None => None,
                        Some(left) => {
                            if left.len() == 0 {
                                self.eval_bool_guard(p, r)
                            } else {
                                match self.guard_after(p, r, &left) {
                                    None => None,
                                    Some(chained) => {
                                        if chained.len() > 0 {
                                            Some(chained)
                                        } else {
                                            Some(left)
                                        }
                                    },
                                }
                            }
                        },
                    }
                } else {
                    match expr.eval(p, self) {
                        None => None,
                        Some(Ok(true)) => Some(single_memory(self.memory.clone())),
                        Some(_) => Some(no_memory()),
                    }
                }
            },
            _ => match expr.eval(p, self) {
                None => None,
                Some(Ok(true)) => Some(single_memory(self.memory.clone())),
                Some(_) => Some(no_memory()),
            },
        }
    }

    /// The memories a communication guard can lead to.
    pub(crate) fn eval_guard(&self, p: &Program, cg: &CG) -> (r: Option<Result<Vec<Memory>, StepError>>)
        ensures
            res_mems(r) == eval_guard(*p, self@, *cg),
    {
        match cg {
            CG::BoolExpression(e) => match self.eval_bool_guard(p, e) {
                None => None,
                Some(ms) => Some(Ok(ms)),
            },
            CG::Send(ch, e) => {
                let ci = match p.channel_index(&ch.0) {
                    None => return Some(Ok(no_memory())),
                    Some(ci) => ci as usize,
                };
                let value = match e.eval(p, self) {
                    None => return None,
                    Some(Err(_)) => return Some(Ok(no_memory())),
                    Some(Ok(v)) => v,
                };
                if ci >= p.channels.len() || ci >= self.memory.channels.len() {
                    return None;
                }
                let fits = match p.channels[ci].size {
                    BufferSize::Finite(max) => self.memory.channels[ci].len() < max as usize,
                    BufferSize::Infinite => true,
                };
                if !fits {
                    return Some(Ok(no_memory()));
                }
                let mut chs = copy_tuples(&self.memory.channels);
                let ghost chv = tuples_view(self.memory.channels);
                assert(chs@.len() == tuples_view(chs).len());
                let mut inner = Vec::new();
                chs.set_and_swap(ci, &mut inner);
                assert(inner@ == chv[ci as int]);
                inner.push(value);
                chs.set(ci, inner);
                assert(tuples_view(chs) =~= chv.update(ci as int, chv[ci as int].push(value)));
                let m = Memory {
                    data: copy_ints(&self.memory.data),
                    tuple_spaces: copy_spaces(&self.memory.tuple_spaces),
                    channels: chs,
                };
                Some(Ok(single_memory(m)))
            },
            CG::Receive(ch, target) => {
                let ci = match p.channel_index(&ch.0) {
                    None => return Some(Ok(no_memory())),
                    Some(ci) => ci as usize,
                };
                let ix = match self.target_index(target, p) {
                    None => return None,
                    Some(Err(e)) => return Some(Err(e)),
                    Some(Ok(ix)) => ix as usize,
                };
                if ci >= self.memory.channels.len() {
                    return None;
                }
                if self.memory.channels[ci].len() == 0 {
                    return Some(Ok(no_memory()));
                }
                if ix >= self.memory.data.len() {
                    return None;
                }
                let v = self.memory.channels[ci][0];
                let mut data = copy_ints(&self.memory.data);
                data.set(ix, v);
                let mut chs = copy_tuples(&self.memory.channels);
                let ghost chv = tuples_view(self.memory.channels);
                assert(chs@.len() == tuples_view(chs).len());
                let mut inner = Vec::new();
                chs.set_and_swap(ci, &mut inner);
                assert(inner@ == chv[ci as int]);
                let _ = inner.remove(0);
                chs.set(ci, inner);
                assert(tuples_view(chs) =~= chv.update(ci as int, chv[ci as int].remove(0)));
                let m = Memory {
                    data,
                    tuple_spaces: copy_spaces(&self.memory.tuple_spaces),
                    channels: chs,
                };
                Some(Ok(single_memory(m)))
            },
        }
    }
}

/// Once a guard panics in one memory, evaluating it after all of them does.
proof fn lemma_guard_after_none(p: Program, s: StateV, r: BExpr, ms: Seq<MemV>, k: int)
    requires
        0 <= k <= ms.len(),
        guard_after(p, s, r, ms.take(k)) is None,
    ensures
        guard_after(p, s, r, ms) is None,
    decreases ms.len() - k,
{
    if k < ms.len() {
        assert(ms.take(k + 1).drop_last() =~= ms.take(k));
        lemma_guard_after_none(p, s, r, ms, k + 1);
    } else {
        assert(ms.take(k) =~= ms);
    }
}

impl BExpr {
    /// The truth value of the expression in `state`; `None` where the
    /// evaluation panics.
    pub(crate) fn eval(&self, p: &Program, state: &State) -> (r: Option<Result<bool, StepError>>)
        ensures
            r == beval(*p, state@, *self),
        decreases self, bexpr_tag(*self), 0int,
    {
        match self {
            BExpr::Bool(b) => Some(Ok(*b)),
            BExpr::Rel(l, op, r) => {
                let lv = match l.eval(p, state) {
                    None => return None,
                    Some(Err(e)) => return Some(Err(e)),
                    Some(Ok(v)) => v,
                };
                let rv = match r.eval(p, state) {
                    None => return None,
                    Some(Err(e)) => return Some(Err(e)),
                    Some(Ok(v)) => v,
                };
                Some(
                    Ok(
                        match op {
                            RelOp::Eq => lv == rv,
                            RelOp::Ne => lv != rv,
                            RelOp::Lt => lv < rv,
                            RelOp::Le => lv <= rv,
                            RelOp::Gt => lv > rv,
                            RelOp::Ge => lv >= rv,
                        },
                    ),
                )
            },
            BExpr::Logic(l, op, r) => {
                let lv = match l.eval(p, state) {
                    None => return None,
                    Some(Err(e)) => return Some(Err(e)),
                    Some(Ok(v)) => v,
                };
                let rv = match r.eval(p, state) {
                    None => return None,
                    Some(Err(e)) => return Some(Err(e)),
                    Some(Ok(v)) => v,
                };
                Some(
                    Ok(
                        match op {
                            LogicOp::And => lv && rv,
                            LogicOp::Land => lv && rv,
                            LogicOp::Or => lv || rv,
                            LogicOp::Lor => lv || rv,
                            LogicOp::Implies => !lv || rv,
                        },
                    ),
                )
            },
            BExpr::Not(e) => match e.eval(p, state) {
                None => None,
                Some(Err(err)) => Some(Err(err)),
                Some(Ok(v)) => Some(Ok(!v)),
            },
            BExpr::Quantified(_, _, _) => None,
            BExpr::OP(_) => match state.eval_bool_guard(p, self) {
                None => None,
                Some(ms) => Some(Ok(ms.len() > 0)),
            },
        }
    }

    /// Evaluates the expression in `state`, or `None` where the
    /// interpreter panics.
    pub fn checked_evaluate(&self, p: &Program, state: &State) -> (r: Option<Result<bool, StepError>>)
        ensures
            r == beval(*p, state@, *self),
    {
        self.eval(p, state)
    }

    /// Evaluates the expression in `state`.
    pub fn evaluate(&self, p: &Program, state: &State) -> (r: Result<bool, StepError>)
        requires
            beval(*p, state@, *self) is Some,
        ensures
            beval(*p, state@, *self) == Some(r),
    {
        match self.eval(p, state) {
            Some(r) => r,
            None => Err(StepError::Stuck),
        }
    }
}

} // verus!

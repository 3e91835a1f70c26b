use vstd::prelude::*;

use crate::program::{
    copy_ptrs, flow_ok, instr_flow_ok, ptrs_view, states_view, Instr, InstrPtr, MemV, Memory,
    Program, State, StateV, StepError,
};
use crate::semantics::{
    all_from, any_from, follow, follow_state, is_halt, is_stuck_or_halt, items_of, jump_measure,
    program_flow_ok, regular_items, settled, step_at, step_exe, step_items, step_spec,
    stuck_spec, successors_of, sync_steps, terminated_spec,
};
use crate::sync::states_result;
use crate::tuple_ops::outs_result;

verus! {

pub(crate) open spec fn item_view(x: Option<Result<State, StepError>>) -> Option<Result<StateV, StepError>> {
    match x {
        None => None,
        Some(Err(e)) => Some(Err(e)),
        Some(Ok(st)) => Some(Ok(st@)),
    }
}

pub(crate) open spec fn items_view(v: Seq<Option<Result<State, StepError>>>) -> Seq<
    Option<Result<StateV, StepError>>,
> {
    v.map_values(|x: Option<Result<State, StepError>>| item_view(x))
}

/// The instruction reached from `x` past `Goto`s and `Nop`s.
fn follow_ptr(p: &Program, x: InstrPtr) -> (r: Option<InstrPtr>)
    ensures
        match r {
            None => follow(*p, x.0) is None,
            Some(y) => follow(*p, x.0) == Some(y.0),
        },
{
    proof {
        use_type_invariant(p);
    }
    let mut cur = x;
    loop
        invariant
            flow_ok(p.instrs@),
            program_flow_ok(*p),
            follow(*p, x.0) == follow(*p, cur.0),
        decreases jump_measure(p.instrs@, cur.0),
    {
        if cur.0 as usize >= p.instrs.len() {
            return None;
        }
        proof {
            assert(instr_flow_ok(p.instrs@, cur.0 as int));
        }
        match &p.instrs[cur.0 as usize] {
            Instr::Goto(q) => {
                cur = *q;
            },
            Instr::Nop => {
                cur = InstrPtr(cur.0 + 1);
            },
            _ => return Some(cur),
        }
    }
}

impl State {
    /// This state with every process moved past `Goto`s and `Nop`s.
    fn follow_gotos(self, p: &Program) -> (r: Option<State>)
        ensures
            match r {
                None => follow_state(*p, self@) is None,
                Some(st) => follow_state(*p, self@) == Some(st@),
            },
    {
        proof {
            use_type_invariant(p);
        }
        let n = self.ptrs.len();
        let mut ptrs: Vec<InstrPtr> = Vec::new();
        let mut i: usize = 0;
        while i < n
            invariant
                n == self@.ptrs.len(),
                program_flow_ok(*p),
                i <= n,
                ptrs@.len() == i,
                forall|j: int| 0 <= j < i ==> #[trigger] follow(*p, self@.ptrs[j]) == Some(ptrs@[j].0),
            decreases n - i,
        {
            match follow_ptr(p, self.ptrs[i]) {
                None => {
                    assert(follow(*p, self@.ptrs[i as int]) is None);
                    return None;
                },
                Some(y) => ptrs.push(y),
            }
            i += 1;
        }
        let st = State { ptrs, memory: self.memory };
        assert(!exists|j: int| 0 <= j < self@.ptrs.len() && (#[trigger] follow(*p, self@.ptrs[j])) is None);
        assert(st@ =~~= StateV {
            ptrs: Seq::new(self@.ptrs.len(), |j: int| follow(*p, self@.ptrs[j]).unwrap()),
            mem: self@.mem,
        });
        Some(st)
    }

    /// The successors of process `execution` alone.
    fn step_exe(&self, p: &Program, execution: usize) -> (r: Option<Result<Vec<State>, StepError>>)
        requires
            execution < self@.ptrs.len(),
        ensures
            states_result(r) == step_exe(*p, self@, execution as int),
    {
        let outs = match self.step_at(p, self.ptrs[execution]) {
            None => return None,
            Some(Err(e)) => return Some(Err(e)),
            Some(Ok(v)) => v,
        };
        let ghost ov = crate::program::outs_view(outs@);
        let mut states: Vec<State> = Vec::new();
        let mut k: usize = 0;
        while k < outs.len()
            invariant
                k <= outs@.len(),
                execution < self@.ptrs.len(),
                ov == crate::program::outs_view(outs@),
                states@.len() == k,
                forall|j: int| 0 <= j < k ==> #[trigger] states@[j]@ == (StateV {
                    ptrs: self@.ptrs.update(execution as int, ov[j].1),
                    mem: ov[j].0,
                }),
            decreases outs@.len() - k,
        {
            let mut ptrs = copy_ptrs(&self.ptrs);
            ptrs.set(execution, outs[k].1);
            let st = State { ptrs, memory: outs[k].0.clone() };
            assert(st@ =~~= StateV { ptrs: self@.ptrs.update(execution as int, ov[k as int].1), mem: ov[k as int].0 });
            states.push(st);
            k += 1;
        }
        assert(states_view(states@) =~= ov.map_values(
            |x: (MemV, u32)| StateV { ptrs: self@.ptrs.update(execution as int, x.1), mem: x.0 },
        ));
        Some(Ok(states))
    }
}

/// Appends the items a set of successors contributes.
fn push_items(p: &Program, r: Option<Result<Vec<State>, StepError>>, items: &mut Vec<Option<Result<State, StepError>>>)
    ensures
        items_view(final(items)@) == items_view(old(items)@) + items_of(*p, states_result(r)),
{
    let ghost before = items_view(items@);
    match r {
        None => {
            items.push(None);
            assert(items_view(items@) =~= before + items_of(*p, states_result(r)));
        },
        Some(Err(e)) => {
            items.push(Some(Err(e)));
            assert(items_view(items@) =~= before + items_of(*p, states_result(r)));
        },
        Some(Ok(v)) => {
            let ghost sv = states_view(v@);
            let mut v = v;
            let n = v.len();
            let mut out: Vec<Option<Result<State, StepError>>> = Vec::new();
            let mut k: usize = 0;
            while k < n
                invariant
                    n == v@.len(),
                    k <= n,
                    sv == states_view(v@),
                    out@.len() == k,
                    forall|j: int| 0 <= j < k ==> #[trigger] item_view(out@[j]) == settled(*p, sv[j]),
                decreases n - k,
            {
                let st = v[k].clone();
                match st.follow_gotos(p) {
                    None => out.push(None),
                    Some(x) => out.push(Some(Ok(x))),
                }
                k += 1;
            }
            assert(items_view(out@) =~= sv.map_values(|st: StateV| settled(*p, st)));
            items.append(&mut out);
            assert(items_view(items@) =~= before + items_of(*p, states_result(r)));
        },
    }
}

impl State {
    /// Everything the state can do, item by item; `None` where computing the
    /// synchronous transitions panics.
    fn step_items(&self, p: &Program) -> (r: Option<Vec<Option<Result<State, StepError>>>>)
        ensures
            match r {
                None => step_items(*p, self@) is None,
                Some(v) => step_items(*p, self@) == Some(items_view(v@)),
            },
    {
        let sync = self.find_sync_pairs(p);
        if sync.is_none() {
            return None;
        }
        let mut items: Vec<Option<Result<State, StepError>>> = Vec::new();
        assert(items_view(items@) =~= seq![]);
        let n = self.ptrs.len();
        let mut i: usize = 0;
        while i < n
            invariant
                n == self@.ptrs.len(),
                i <= n,
                items_view(items@) == regular_items(*p, self@, i as int),
            decreases n - i,
        {
            let r = self.step_exe(p, i);
            push_items(p, r, &mut items);
            i += 1;
        }
        push_items(p, sync, &mut items);
        Some(items)
    }

    /// The successor states, or `None` where the interpreter panics.
    pub fn checked_step(&self, p: &Program) -> (r: Option<Vec<State>>)
        ensures
            match r {
                None => step_spec(*p, self@) is None,
                Some(v) => step_spec(*p, self@) == Some(states_view(v@)),
            },
    {
        let items = match self.step_items(p) {
            None => return None,
            Some(items) => items,
        };
        let ghost iv = items_view(items@);
        let mut out: Vec<State> = Vec::new();
        let n = items.len();
        let mut k: usize = 0;
        assert(iv.take(0) =~= seq![]);
        assert(states_view(out@) =~= seq![]);
        while k < n
            invariant
                n == items@.len(),
                iv == items_view(items@),
                step_items(*p, self@) == Some(iv),
                k <= n,
                successors_of(iv.take(k as int)) == Some(states_view(out@)),
            decreases n - k,
        {
            assert(iv.take(k + 1).drop_last() =~= iv.take(k as int));
            assert(iv.take(k + 1).last() == item_view(items@[k as int]));
            match &items[k] {
                None => {
                    proof {
                        lemma_successors_none(iv, k + 1);
                    }
                    return None;
                },
                Some(Err(_)) => {},
                Some(Ok(st)) => {
                    let ghost before = states_view(out@);
                    out.push(st.clone());
                    assert(states_view(out@) =~= before.push(st@));
                },
            }
            k += 1;
        }
        assert(iv.take(n as int) =~= iv);
        Some(out)
    }

    /// The successor states: every state one process, or a synchronous
    /// pair or group of processes, can move to.
    pub fn step(&self, p: &Program) -> (r: Vec<State>)
        requires
            step_spec(*p, self@) is Some,
        ensures
            step_spec(*p, self@) == Some(states_view(r@)),
    {
        match self.checked_step(p) {
            Some(v) => v,
            None => Vec::new(),
        }
    }

    /// Whether every process has halted and nothing else can happen, or
    /// `None` where the interpreter panics.
    pub fn checked_is_terminated(&self, p: &Program) -> (r: Option<bool>)
        ensures
            r == terminated_spec(*p, self@),
    {
        match self.step_items(p) {
            None => None,
            Some(items) => all_items_halted(&items),
        }
    }

    /// Whether every process has halted and nothing else can happen.
    pub fn is_terminated(&self, p: &Program) -> (r: bool)
        requires
            terminated_spec(*p, self@) is Some,
        ensures
            terminated_spec(*p, self@) == Some(r),
    {
        match self.checked_is_terminated(p) {
            Some(b) => b,
            None => false,
        }
    }

    /// Whether nothing can happen and some process is stuck, or `None`
    /// where the interpreter panics.
    pub fn checked_is_stuck(&self, p: &Program) -> (r: Option<bool>)
        ensures
            r == stuck_spec(*p, self@),
    {
        match self.step_items(p) {
            None => None,
            Some(items) => {
                let all = all_items_stuck_or_halted(&items);
                let any = any_item_stuck(&items);
                match (all, any) {
                    (Some(a), Some(b)) => Some(a && b),
                    _ => None,
                }
            },
        }
    }

    /// Whether nothing can happen and some process is stuck.
    pub fn is_stuck(&self, p: &Program) -> (r: bool)
        requires
            stuck_spec(*p, self@) is Some,
        ensures
            stuck_spec(*p, self@) == Some(r),
    {
        match self.checked_is_stuck(p) {
            Some(b) => b,
            None => false,
        }
    }
}

/// Whether every item is the error `Halt`, looking no further than the
/// first that is not.
fn all_items_halted(items: &Vec<Option<Result<State, StepError>>>) -> (r: Option<bool>)
    ensures
        r == all_from(items_view(items@), |e: StepError| is_halt(e), 0),
{
    let ghost iv = items_view(items@);
    let n = items.len();
    let mut k: usize = 0;
    while k < n
        invariant
            n == items@.len(),
            iv == items_view(items@),
            k <= n,
            all_from(iv, |e: StepError| is_halt(e), 0) == all_from(iv, |e: StepError| is_halt(e), k as int),
        decreases n - k,
    {
        assert(iv[k as int] == item_view(items@[k as int]));
        match &items[k] {
            None => return None,
            Some(Err(StepError::Halt)) => {},
            Some(_) => return Some(false),
        }
        k += 1;
    }
    Some(true)
}

/// Whether every item is the error `Stuck` or `Halt`, looking no further
/// than the first that is not.
fn all_items_stuck_or_halted(items: &Vec<Option<Result<State, StepError>>>) -> (r: Option<bool>)
    ensures
        r == all_from(items_view(items@), |e: StepError| is_stuck_or_halt(e), 0),
{
    let ghost iv = items_view(items@);
    let n = items.len();
    let mut k: usize = 0;
    while k < n
        invariant
            n == items@.len(),
            iv == items_view(items@),
            k <= n,
            all_from(iv, |e: StepError| is_stuck_or_halt(e), 0) == all_from(
                iv,
                |e: StepError| is_stuck_or_halt(e),
                k as int,
            ),
        decreases n - k,
    {
        assert(iv[k as int] == item_view(items@[k as int]));
        match &items[k] {
            None => return None,
            Some(Err(StepError::Halt)) => {},
            Some(Err(StepError::Stuck)) => {},
            Some(_) => return Some(false),
        }
        k += 1;
    }
    Some(true)
}

/// Whether some item is the error `Stuck`, looking no further than the
/// first that is.
fn any_item_stuck(items: &Vec<Option<Result<State, StepError>>>) -> (r: Option<bool>)
    ensures
        r == any_from(items_view(items@), StepError::Stuck, 0),
{
    let ghost iv = items_view(items@);
    let n = items.len();
    let mut k: usize = 0;
    while k < n
        invariant
            n == items@.len(),
            iv == items_view(items@),
            k <= n,
            any_from(iv, StepError::Stuck, 0) == any_from(iv, StepError::Stuck, k as int),
        decreases n - k,
    {
        assert(iv[k as int] == item_view(items@[k as int]));
        match &items[k] {
            None => return None,
            Some(Err(StepError::Stuck)) => return Some(true),
            Some(_) => {},
        }
        k += 1;
    }
    Some(false)
}

/// Once an item panics, collecting the successors does.
proof fn lemma_successors_none(items: Seq<Option<Result<StateV, StepError>>>, k: int)
    requires
        0 <= k <= items.len(),
        successors_of(items.take(k)) is None,
    ensures
        successors_of(items) is None,
    decreases items.len() - k,
{
    if k < items.len() {
        assert(items.take(k + 1).drop_last() =~= items.take(k));
        lemma_successors_none(items, k + 1);
    } else {
        assert(items.take(k) =~= items);
    }
}

} // verus!

use vstd::prelude::*;

use crate::ast::{BufferSize, ChannelFormula};
use crate::guards::res_mems;
use crate::program::{
    copy_ints, copy_spaces, copy_tuples, mems_view, outs_view, spaces_view, tuples_view, Instr,
    InstrPtr, MemV, Memory, Program, State, StepError,
};
use crate::semantics::{
    branch_from, channel_formula_eval, step_at, with_channels, with_data, with_spaces,
};
use crate::tuple_ops::outs_result;

verus! {

/// One successor.
fn one_out(m: Memory, t: InstrPtr) -> (r: Vec<(Memory, InstrPtr)>)
    ensures
        outs_view(r@) == seq![(m@, t.0)],
{
    let mut v: Vec<(Memory, InstrPtr)> = Vec::new();
    v.push((m, t));
    assert(outs_view(v@) =~= seq![(m@, t.0)]);
    v
}

/// Each memory paired with the same next instruction.
fn tag_memories(ms: &Vec<Memory>, t: InstrPtr) -> (r: Vec<(Memory, InstrPtr)>)
    ensures
        outs_view(r@) == mems_view(ms@).map_values(|m: MemV| (m, t.0)),
{
    let mut v: Vec<(Memory, InstrPtr)> = Vec::new();
    let mut i: usize = 0;
    while i < ms.len()
        invariant
            i <= ms@.len(),
            v@.len() == i,
            forall|j: int| 0 <= j < i ==> #[trigger] v@[j].0@ == ms@[j]@ && v@[j].1 == t,
        decreases ms@.len() - i,
    {
        let c = ms[i].clone();
        assert(c@ == ms@[i as int]@);
        let ghost before = v@;
        v.push((c, t));
        proof {
            assert forall|j: int| 0 <= j < i + 1 implies #[trigger] v@[j].0@ == ms@[j]@ && v@[j].1 == t by {
                if j < i {
                    assert(v@[j] == before[j]);
                }
            }
        }
        i += 1;
    }
    assert(outs_view(v@) =~= mems_view(ms@).map_values(|m: MemV| (m, t.0)));
    v
}

impl Memory {
    /// This memory with one data cell changed.
    fn set_cell(&self, ix: usize, v: i32) -> (r: Memory)
        requires
            ix < self@.data.len(),
        ensures
            r@ == with_data(self@, self@.data.update(ix as int, v)),
    {
        let mut data = copy_ints(&self.data);
        data.set(ix, v);
        Memory { data, tuple_spaces: copy_spaces(&self.tuple_spaces), channels: copy_tuples(&self.channels) }
    }

    /// This memory with a tuple added to a tuple space.
    fn push_tuple(&self, ix: usize, vs: Vec<i32>) -> (r: Memory)
        requires
            ix < self@.ts.len(),
        ensures
            r@ == with_spaces(self@, self@.ts.update(ix as int, self@.ts[ix as int].push(vs@))),
    {
        let mut ts = copy_spaces(&self.tuple_spaces);
        let ghost tsv = spaces_view(self.tuple_spaces);
        assert(ts@.len() == spaces_view(ts).len());
        let mut inner: Vec<Vec<i32>> = Vec::new();
        ts.set_and_swap(ix, &mut inner);
        let ghost inner0 = inner;
        assert(tuples_view(inner0) == tsv[ix as int]);
        let ghost vals = vs@;
        inner.push(vs);
        assert(tuples_view(inner) =~= tuples_view(inner0).push(vals));
        ts.set(ix, inner);
        assert(spaces_view(ts) =~= tsv.update(ix as int, tsv[ix as int].push(vals)));
        Memory { data: copy_ints(&self.data), tuple_spaces: ts, channels: copy_tuples(&self.channels) }
    }

    /// This memory with a value added to a channel.
    fn push_channel(&self, ci: usize, v: i32) -> (r: Memory)
        requires
            ci < self@.ch.len(),
        ensures
            r@ == with_channels(self@, self@.ch.update(ci as int, self@.ch[ci as int].push(v))),
    {
        let mut chs = copy_tuples(&self.channels);
        let ghost chv = tuples_view(self.channels);
        assert(chs@.len() == tuples_view(chs).len());
        let mut inner = Vec::new();
        chs.set_and_swap(ci, &mut inner);
        assert(inner@ == chv[ci as int]);
        inner.push(v);
        chs.set(ci, inner);
        assert(tuples_view(chs) =~= chv.update(ci as int, chv[ci as int].push(v)));
        Memory { data: copy_ints(&self.data), tuple_spaces: copy_spaces(&self.tuple_spaces), channels: chs }
    }

    /// This memory with the head of a channel moved into a data cell.
    fn receive_into(&self, ci: usize, ix: usize) -> (r: Memory)
        requires
            ci < self@.ch.len(),
            self@.ch[ci as int].len() > 0,
            ix < self@.data.len(),
        ensures
            r@ == (MemV {
                data: self@.data.update(ix as int, self@.ch[ci as int][0]),
                ts: self@.ts,
                ch: self@.ch.update(ci as int, self@.ch[ci as int].remove(0)),
            }),
    {
        let v = self.channels[ci][0];
        let mut data = copy_ints(&self.data);
        data.set(ix, v);
        let mut chs = copy_tuples(&self.channels);
        let ghost chv = tuples_view(self.channels);
        assert(chs@.len() == tuples_view(chs).len());
        let mut inner = Vec::new();
        chs.set_and_swap(ci, &mut inner);
        assert(inner@ == chv[ci as int]);
        let _ = inner.remove(0);
        chs.set(ci, inner);
        assert(tuples_view(chs) =~= chv.update(ci as int, chv[ci as int].remove(0)));
        Memory { data, tuple_spaces: copy_spaces(&self.tuple_spaces), channels: chs }
    }
}

impl State {
    /// The successors of the process at `ptr`, each a memory and the next
    /// instruction.
    pub(crate) fn step_at(&self, p: &Program, ptr: InstrPtr) -> (r: Option<
        Result<Vec<(Memory, InstrPtr)>, StepError>,
    >)
        ensures
            outs_result(r) == step_at(*p, self@, ptr.0),
    {
        proof {
            use_type_invariant(p);
        }
        if ptr.0 as usize >= p.instrs.len() {
            return None;
        }
        let next = InstrPtr(ptr.0 + 1);
        match &p.instrs[ptr.0 as usize] {
            Instr::Nop => Some(Ok(one_out(self.memory.clone(), next))),
            Instr::Assign(target, e) => {
                let value = match e.eval(p, self) {
                    None => return None,
                    Some(Err(err)) => return Some(Err(err)),
                    Some(Ok(v)) => v,
                };
                let ix = match self.target_index(target, p) {
                    None => return None,
                    Some(Err(err)) => return Some(Err(err)),
                    Some(Ok(ix)) => ix as usize,
                };
                if ix >= self.memory.data.len() {
                    return None;
                }
                Some(Ok(one_out(self.memory.set_cell(ix, value), next)))
            },
            Instr::Branch { choices, otherwise } => {
                let mut valid: Vec<(Memory, InstrPtr)> = Vec::new();
                let n = choices.len();
                let mut k: usize = 0;
                assert(outs_view(valid@) =~= Seq::<(MemV, u32)>::empty());
                while k < n
                    invariant
                        ptr.0 < p.instrs@.len(),
                        p.instrs@[ptr.0 as int] == (Instr::Branch { choices: *choices, otherwise: *otherwise }),
                        n == choices@.len(),
                        k <= n,
                        branch_from(*p, self@, choices@, 0, seq![]) == branch_from(
                            *p,
                            self@,
                            choices@,
                            k as int,
                            outs_view(valid@),
                        ),
                    decreases n - k,
                {
                    match self.eval_guard(p, &choices[k].0) {
                        None => return None,
                        Some(Err(err)) => return Some(Err(err)),
                        Some(Ok(ms)) => {
                            let ghost before = outs_view(valid@);
                            let mut tagged = tag_memories(&ms, choices[k].1);
                            let ghost tv = outs_view(tagged@);
                            valid.append(&mut tagged);
                            assert(outs_view(valid@) =~= before + tv);
                        },
                    }
                    k += 1;
                }
                if valid.len() == 0 {
                    match otherwise {
                        Some(t) => Some(Ok(one_out(self.memory.clone(), *t))),
                        None => Some(Err(StepError::Stuck)),
                    }
                } else {
                    Some(Ok(valid))
                }
            },
            Instr::Goto(t) => Some(Ok(one_out(self.memory.clone(), *t))),
            Instr::Halt => Some(Err(StepError::Halt)),
            Instr::Put(size, ix, args) => {
                let values = match self.values_of(args, p) {
                    None => return None,
                    Some(Err(err)) => return Some(Err(err)),
                    Some(Ok(v)) => v,
                };
                let ix = *ix as usize;
                if ix >= self.memory.tuple_spaces.len() {
                    return None;
                }
                let fits = match size {
                    BufferSize::Finite(max) => self.memory.tuple_spaces[ix].len() < *max as usize,
                    BufferSize::Infinite => true,
                };
                if !fits {
                    return Some(Err(StepError::Stuck));
                }
                Some(Ok(one_out(self.memory.push_tuple(ix, values), next)))
            },
            Instr::Get(ty, ix, fields) => self.match_space(*ty, *ix, fields, p, ptr.0, true),
            Instr::Query(ty, ix, fields) => self.match_space(*ty, *ix, fields, p, ptr.0, false),
            Instr::Send(size, ci, e) => {
                let value = match e.eval(p, self) {
                    None => return None,
                    Some(Err(err)) => return Some(Err(err)),
                    Some(Ok(v)) => v,
                };
                let ci = *ci as usize;
                if ci >= self.memory.channels.len() {
                    return None;
                }
                let fits = match size {
                    BufferSize::Finite(max) => self.memory.channels[ci].len() < *max as usize,
                    BufferSize::Infinite => true,
                };
                if !fits {
                    return Some(Err(StepError::Stuck));
                }
                Some(Ok(one_out(self.memory.push_channel(ci, value), next)))
            },
            Instr::Receive(ci, target) => {
                let ix = match self.target_index(target, p) {
                    None => return None,
                    Some(Err(err)) => return Some(Err(err)),
                    Some(Ok(ix)) => ix as usize,
                };
                let ci = *ci as usize;
                if ci >= self.memory.channels.len() {
                    return None;
                }
                if self.memory.channels[ci].len() == 0 {
                    return Some(Err(StepError::Stuck));
                }
                if ix >= self.memory.data.len() {
                    return None;
                }
                Some(Ok(one_out(self.memory.receive_into(ci, ix), next)))
            },
            Instr::SyncSend { .. } => Some(Err(StepError::Stuck)),
            Instr::SyncReceive { .. } => Some(Err(StepError::Stuck)),
            Instr::Broadcast { .. } => Some(Err(StepError::Stuck)),
            Instr::Gather { .. } => Some(Err(StepError::Stuck)),
        }
    }
}

/// Whether the value occurs in the sequence.
pub fn contains_value(v: &Vec<i32>, x: i32) -> (r: bool)
    ensures
        r == v@.contains(x),
{
    let mut i: usize = 0;
    while i < v.len()
        invariant
            i <= v@.len(),
            forall|j: int| 0 <= j < i ==> v@[j] != x,
        decreases v@.len() - i,
    {
        if v[i] == x {
            assert(v@[i as int] == x);
            return true;
        }
        i += 1;
    }
    false
}

impl ChannelFormula {
    pub(crate) fn eval(&self, p: &Program, state: &State) -> (r: Option<Result<bool, StepError>>)
        ensures
            r == channel_formula_eval(*p, state@, *self),
    {
        let (c, e) = match self {
            ChannelFormula::ChannelHead(c, e) => (c, e),
            ChannelFormula::ChannelContains(c, e) => (c, e),
        };
        let v = match e.eval(p, state) {
            None => return None,
            Some(Err(err)) => return Some(Err(err)),
            Some(Ok(v)) => v,
        };
        let ci = match p.channel_index(&c.0) {
            None => return None,
            Some(ci) => ci as usize,
        };
        if ci >= state.memory.channels.len() {
            return None;
        }
        let chan = &state.memory.channels[ci];
        match self {
            ChannelFormula::ChannelHead(_, _) => Some(Ok(chan.len() > 0 && chan[0] == v)),
            ChannelFormula::ChannelContains(_, _) => Some(Ok(contains_value(chan, v))),
        }
    }

    /// Evaluates the predicate in `state`, or `None` where the interpreter
    /// panics.
    pub fn checked_evaluate(&self, p: &Program, state: &State) -> (r: Option<Result<bool, StepError>>)
        ensures
            r == channel_formula_eval(*p, state@, *self),
    {
        self.eval(p, state)
    }

    /// Evaluates the predicate in `state`.
    pub fn evaluate(&self, p: &Program, state: &State) -> (r: Result<bool, StepError>)
        requires
            channel_formula_eval(*p, state@, *self) is Some,
        ensures
            channel_formula_eval(*p, state@, *self) == Some(r),
    {
        match self.eval(p, state) {
            Some(r) => r,
            None => Err(StepError::Stuck),
        }
    }
}

} // verus!

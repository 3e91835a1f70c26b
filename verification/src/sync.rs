use vstd::prelude::*;

use crate::ast::{clone_target, AExpr, Array, ChannelName, Target, CG};
use crate::perms::{index_orderings, index_permutations, is_ordering, orderings_view};
use crate::program::{
    copy_ptrs, ptrs_view, states_view, Instr, InstrPtr, Memory, Program, State, StateV, StepError,
};
use crate::semantics::{
    add_handover, aeval, array_slot, branch_receivers, branch_senders, broadcast_steps, bumped,
    collective_steps, deliver, gather_into, gather_orderings, gather_steps, handover, instr_of,
    pair_branch_receive, pair_branches, pair_send_branch, pair_steps, pairs_from, receivers_from,
    same_channel, senders_from, sync_from, sync_steps, target_index, with_data, wrapping_add_u32,
};

verus! {

pub(crate) open spec fn states_result(r: Option<Result<Vec<State>, StepError>>) -> Option<
    Result<Seq<StateV>, StepError>,
> {
    match r {
        None => None,
        Some(Err(e)) => Some(Err(e)),
        Some(Ok(v)) => Some(Ok(states_view(v@))),
    }
}

pub(crate) open spec fn recv_view(v: Seq<(usize, Target, Option<InstrPtr>)>) -> Seq<(int, Target, Option<u32>)> {
    v.map_values(
        |x: (usize, Target, Option<InstrPtr>)|
            (
                x.0 as int,
                x.1,
                match x.2 {
                    Some(t) => Some(t.0),
                    None => None,
                },
            ),
    )
}

pub(crate) open spec fn send_view(v: Seq<(usize, i32, Option<InstrPtr>)>) -> Seq<(int, i32, Option<u32>)> {
    v.map_values(
        |x: (usize, i32, Option<InstrPtr>)|
            (
                x.0 as int,
                x.1,
                match x.2 {
                    Some(t) => Some(t.0),
                    None => None,
                },
            ),
    )
}

fn next_ptr(t: InstrPtr) -> (r: InstrPtr)
    ensures
        r.0 == bumped(t.0),
{
    InstrPtr(t.0.wrapping_add(1))
}

impl State {
    /// Points process `j` at `t`.
    fn set_ptr(&mut self, j: usize, t: InstrPtr)
        requires
            j < self@.ptrs.len(),
        ensures
            final(self)@ == (StateV { ptrs: old(self)@.ptrs.update(j as int, t.0), mem: old(self)@.mem }),
    {
        let ghost before = self@;
        self.ptrs.set(j, t);
        assert(self@.ptrs =~= before.ptrs.update(j as int, t.0));
    }

    /// Writes a data cell.
    fn set_data(&mut self, ix: usize, v: i32)
        requires
            ix < old(self)@.mem.data.len(),
        ensures
            final(self)@ == (StateV {
                ptrs: old(self)@.ptrs,
                mem: with_data(old(self)@.mem, old(self)@.mem.data.update(ix as int, v)),
            }),
    {
        let ghost before = self@;
        self.memory.data.set(ix, v);
        assert(self@.mem =~~= with_data(before.mem, before.mem.data.update(ix as int, v)));
    }

    /// The instruction process `i` is at.
    pub(crate) fn instr_of<'a>(&self, p: &'a Program, i: usize) -> (r: Option<&'a Instr>)
        ensures
            match r {
                Some(x) => instr_of(*p, self@, i as int) == Some(*x),
                None => instr_of(*p, self@, i as int) is None,
            },
    {
        if i >= self.ptrs.len() {
            return None;
        }
        let ptr = self.ptrs[i].0 as usize;
        if ptr >= p.instrs.len() {
            return None;
        }
        Some(&p.instrs[ptr])
    }

    /// The processes other than `i` that can receive a broadcast on `c`.
    fn receivers(&self, p: &Program, i: usize, c: &ChannelName) -> (r: Option<
        Vec<(usize, Target, Option<InstrPtr>)>,
    >)
        ensures
            match r {
                None => receivers_from(*p, self@, i as int, *c, 0, seq![]) is None,
                Some(v) => receivers_from(*p, self@, i as int, *c, 0, seq![]) == Some(recv_view(v@)),
            },
    {
        let mut acc: Vec<(usize, Target, Option<InstrPtr>)> = Vec::new();
        let n = self.ptrs.len();
        let mut j: usize = 0;
        assert(recv_view(acc@) =~= seq![]);
        while j < n
            invariant
                n == self@.ptrs.len(),
                j <= n,
                receivers_from(*p, self@, i as int, *c, 0, seq![]) == receivers_from(
                    *p,
                    self@,
                    i as int,
                    *c,
                    j as int,
                    recv_view(acc@),
                ),
            decreases n - j,
        {
            if j != i {
                match self.instr_of(p, j) {
                    None => return None,
                    Some(Instr::SyncReceive { channel, target }) => {
                        if channel.0 == c.0 {
                            let ghost before = recv_view(acc@);
                            acc.push((j, clone_target(target), None));
                            assert(recv_view(acc@) =~= before.push((j as int, *target, None)));
                        }
                    },
                    Some(Instr::Branch { choices, .. }) => {
                        let ghost before = recv_view(acc@);
                        let m = choices.len();
                        let mut b: usize = 0;
                        assert(choices@.take(0) =~= Seq::<(CG, InstrPtr)>::empty());
                        assert(before + branch_receivers(choices@.take(0), *c, j as int) =~= before);
                        while b < m
                            invariant
                                m == choices@.len(),
                                b <= m,
                                recv_view(acc@) == before + branch_receivers(choices@.take(b as int), *c, j as int),
                            decreases m - b,
                        {
                            assert(choices@.take(b + 1).drop_last() =~= choices@.take(b as int));
                            assert(choices@.take(b + 1).last() == choices@[b as int]);
                            match &choices[b].0 {
                                CG::Receive(c2, t) => {
                                    if c2.0 == c.0 {
                                        let ghost mid = recv_view(acc@);
                                        acc.push((j, clone_target(t), Some(choices[b].1)));
                                        assert(recv_view(acc@) =~= mid.push((j as int, *t, Some(choices@[b as int].1.0))));
                                    }
                                },
                                _ => {},
                            }
                            b += 1;
                        }
                        assert(choices@.take(m as int) =~= choices@);
                    },
                    Some(_) => {},
                }
            }
            j += 1;
        }
        Some(acc)
    }

    /// The state after the receivers take the broadcast value.
    fn deliver(&self, p: &Program, value: i32, rs: &Vec<(usize, Target, Option<InstrPtr>)>) -> (r: Option<
        Result<State, StepError>,
    >)
        ensures
            match r {
                None => deliver(*p, self@, value, recv_view(rs@), 0, self@) is None,
                Some(Err(e)) => deliver(*p, self@, value, recv_view(rs@), 0, self@) == Some(Err::<StateV, StepError>(e)),
                Some(Ok(ns)) => deliver(*p, self@, value, recv_view(rs@), 0, self@) == Some(Ok::<StateV, StepError>(ns@))
                    && ns@.ptrs.len() == self@.ptrs.len(),
            },
    {
        let ghost rv = recv_view(rs@);
        let mut ns = self.clone();
        let n = rs.len();
        let mut k: usize = 0;
        while k < n
            invariant
                n == rs@.len(),
                rv == recv_view(rs@),
                k <= n,
                ns@.ptrs.len() == self@.ptrs.len(),
                deliver(*p, self@, value, rv, 0, self@) == deliver(*p, self@, value, rv, k as int, ns@),
            decreases n - k,
        {
            let j = rs[k].0;
            let ix = match self.target_index(&rs[k].1, p) {
                None => return None,
                Some(Err(e)) => return Some(Err(e)),
                Some(Ok(ix)) => ix as usize,
            };
            if ix >= ns.memory.data.len() || j >= ns.ptrs.len() {
                return None;
            }
            let next = match rs[k].2 {
                Some(t) => t,
                None => next_ptr(ns.ptrs[j]),
            };
            ns.set_ptr(j, next);
            ns.set_data(ix, value);
            k += 1;
        }
        Some(Ok(ns))
    }

    /// The transition of a broadcast by process `i`.
    fn broadcast_steps(&self, p: &Program, i: usize, c: &ChannelName, k: i32, expr: &AExpr) -> (r: Option<
        Result<Vec<State>, StepError>,
    >)
        requires
            i < self@.ptrs.len(),
        ensures
            states_result(r) == broadcast_steps(*p, self@, i as int, *c, k, *expr),
    {
        let value = match expr.eval(p, self) {
            None => return None,
            Some(Err(e)) => return Some(Err(e)),
            Some(Ok(v)) => v,
        };
        let rs = match self.receivers(p, i, c) {
            None => return None,
            Some(rs) => rs,
        };
        let mut out: Vec<State> = Vec::new();
        if k >= 0 && k as usize <= rs.len() {
            match self.deliver(p, value, &rs) {
                None => None,
                Some(Err(e)) => Some(Err(e)),
                Some(Ok(ns)) => {
                    let mut ns = ns;
                    ns.set_ptr(i, next_ptr(self.ptrs[i]));
                    out.push(ns);
                    assert(states_view(out@) =~= seq![out@[0]@]);
                    Some(Ok(out))
                },
            }
        } else {
            assert(states_view(out@) =~= seq![]);
            Some(Ok(out))
        }
    }
}

impl State {
    /// The processes other than `i` that can send to a gather on `c`, with
    /// their values.
    fn senders(&self, p: &Program, i: usize, c: &ChannelName) -> (r: Option<
        Result<Vec<(usize, i32, Option<InstrPtr>)>, StepError>,
    >)
        ensures
            ({
                let sr = senders_from(*p, self@, i as int, *c, 0, seq![]);
                match r {
                    None => sr is None,
                    Some(Err(e)) => sr == Some(Err::<Seq<(int, i32, Option<u32>)>, StepError>(e)),
                    Some(Ok(v)) => sr == Some(Ok::<Seq<(int, i32, Option<u32>)>, StepError>(send_view(v@))),
                }
            }),
    {
        let mut acc: Vec<(usize, i32, Option<InstrPtr>)> = Vec::new();
        let n = self.ptrs.len();
        let mut j: usize = 0;
        assert(send_view(acc@) =~= seq![]);
        while j < n
            invariant
                n == self@.ptrs.len(),
                j <= n,
                senders_from(*p, self@, i as int, *c, 0, seq![]) == senders_from(
                    *p,
                    self@,
                    i as int,
                    *c,
                    j as int,
                    send_view(acc@),
                ),
            decreases n - j,
        {
            if j != i {
                match self.instr_of(p, j) {
                    None => return None,
                    Some(Instr::SyncSend { channel, expr }) => {
                        if channel.0 == c.0 {
                            match expr.eval(p, self) {
                                None => return None,
                                Some(Err(e)) => return Some(Err(e)),
                                Some(Ok(v)) => {
                                    let ghost before = send_view(acc@);
                                    acc.push((j, v, None));
                                    assert(send_view(acc@) =~= before.push((j as int, v, None)));
                                },
                            }
                        }
                    },
                    Some(Instr::Branch { choices, .. }) => {
                        let ghost before = send_view(acc@);
                        let m = choices.len();
                        let mut b: usize = 0;
                        while b < m
                            invariant
                                n == self@.ptrs.len(),
                                j < n,
                                j != i,
                                m == choices@.len(),
                                b <= m,
                                instr_of(*p, self@, j as int) == Some(Instr::Branch { choices: *choices, otherwise: match instr_of(*p, self@, j as int) { Some(Instr::Branch { otherwise, .. }) => otherwise, _ => None } }),
                                senders_from(*p, self@, i as int, *c, 0, seq![]) == senders_from(
                                    *p,
                                    self@,
                                    i as int,
                                    *c,
                                    j as int,
                                    before,
                                ),
                                branch_senders(*p, self@, choices@, *c, j as int, 0, before) == branch_senders(
                                    *p,
                                    self@,
                                    choices@,
                                    *c,
                                    j as int,
                                    b as int,
                                    send_view(acc@),
                                ),
                            decreases m - b,
                        {
                            match &choices[b].0 {
                                CG::Send(c2, e) => {
                                    if c2.0 == c.0 {
                                        match e.eval(p, self) {
                                            None => return None,
                                            Some(Err(err)) => return Some(Err(err)),
                                            Some(Ok(v)) => {
                                                let ghost mid = send_view(acc@);
                                                acc.push((j, v, Some(choices[b].1)));
                                                assert(send_view(acc@) =~= mid.push((j as int, v, Some(choices@[b as int].1.0))));
                                            },
                                        }
                                    }
                                },
                                _ => {},
                            }
                            b += 1;
                        }
                    },
                    Some(_) => {},
                }
            }
            j += 1;
        }
        Some(Ok(acc))
    }

    /// The transitions of a gather by process `i` into `array`.
    fn gather_steps(
        &self,
        p: &Program,
        i: usize,
        c: &ChannelName,
        k: i32,
        array: &Array,
        target: &Target,
    ) -> (r: Option<Result<Vec<State>, StepError>>)
        requires
            i < self@.ptrs.len(),
        ensures
            states_result(r) == gather_steps(*p, self@, i as int, *c, k, array.0@, *target),
    {
        if let Target::Array(arr, _) = target {
            if arr.0 == array.0 {
                return Some(Err(StepError::SameArrayGather));
            }
        }
        let slot = match p.array_slot(array) {
            None => return None,
            Some(slot) => slot,
        };
        let base = p.targets[slot].base_index;
        let len = p.targets[slot].length;
        let senders = match self.senders(p, i, c) {
            None => return None,
            Some(Err(e)) => return Some(Err(e)),
            Some(Ok(v)) => v,
        };
        let ghost sv = send_view(senders@);
        let mut out: Vec<State> = Vec::new();
        assert(states_view(out@) =~= seq![]);
        if !(k >= 0 && senders.len() >= k as usize) {
            return Some(Ok(out));
        }
        let perms = index_orderings(senders.len());
        let ghost pv = orderings_view(perms);
        let nq = perms.len();
        let mut q: usize = 0;
        while q < nq
            invariant
                nq == perms@.len(),
                pv == orderings_view(perms),
                pv == index_permutations(senders@.len() as usize),
                sv == send_view(senders@),
                i < self@.ptrs.len(),
                q <= nq,
                out@.len() == q,
                gather_steps(*p, self@, i as int, *c, k, array.0@, *target) == gather_orderings(
                    *p,
                    self@,
                    i as int,
                    *target,
                    sv,
                    pv,
                    base,
                    len,
                    q as int,
                    states_view(out@),
                ),
            decreases nq - q,
        {
            let perm = &perms[q];
            assert(pv[q as int] == perm@);
            let mut ns = self.clone();
            let m = perm.len();
            let mut idx: usize = 0;
            while idx < m
                invariant
                    m == perm@.len(),
                    idx <= m,
                    q < nq,
                    pv.len() == nq,
                    pv[q as int] == perm@,
                    sv.len() == senders@.len(),
                    sv == send_view(senders@),
                    gather_steps(*p, self@, i as int, *c, k, array.0@, *target) == gather_orderings(
                        *p,
                        self@,
                        i as int,
                        *target,
                        sv,
                        pv,
                        base,
                        len,
                        q as int,
                        states_view(out@),
                    ),
                    ns@.ptrs.len() == self@.ptrs.len(),
                    gather_into(sv, perm@, base, len, 0, self@) == gather_into(
                        sv,
                        perm@,
                        base,
                        len,
                        idx as int,
                        ns@,
                    ),
                decreases m - idx,
            {
                let which = perm[idx];
                if which >= senders.len() {
                    return None;
                }
                let j = senders[which].0;
                let value = senders[which].1;
                if (idx as u64) < (len as u64) {
                    let dlen = ns.memory.data.len();
                    if idx >= dlen || base as usize >= dlen - idx {
                        return None;
                    }
                    ns.set_data(base as usize + idx, value);
                }
                if j >= ns.ptrs.len() {
                    return None;
                }
                let next = match senders[which].2 {
                    Some(t) => t,
                    None => next_ptr(ns.ptrs[j]),
                };
                ns.set_ptr(j, next);
                idx += 1;
            }
            let ix = match self.target_index(target, p) {
                None => return None,
                Some(Err(e)) => return Some(Err(e)),
                Some(Ok(ix)) => ix as usize,
            };
            if ix >= ns.memory.data.len() {
                return None;
            }
            let count: usize = if m <= len as usize { m } else { len as usize };
            ns.set_data(ix, #[verifier::truncate] (count as i32));
            ns.set_ptr(i, next_ptr(self.ptrs[i]));
            let ghost before = states_view(out@);
            let ghost nsv = ns@;
            out.push(ns);
            assert(states_view(out@) =~= before.push(nsv));
            q += 1;
        }
        Some(Ok(out))
    }

    /// The transitions process `i` starts alone.
    fn collective_steps(&self, p: &Program, i: usize) -> (r: Option<Result<Vec<State>, StepError>>)
        ensures
            states_result(r) == collective_steps(*p, self@, i as int),
    {
        match self.instr_of(p, i) {
            None => None,
            Some(Instr::Broadcast { channel, k, expr }) => self.broadcast_steps(p, i, channel, *k, expr),
            Some(Instr::Gather { channel, k, array, target }) => self.gather_steps(p, i, channel, *k, array, target),
            Some(_) => {
                let out: Vec<State> = Vec::new();
                assert(states_view(out@) =~= seq![]);
                Some(Ok(out))
            },
        }
    }

    /// The state after a synchronous message is received into `target`
    /// with the processes going to `ptrs`.
    fn handover(&self, p: &Program, expr: &AExpr, target: &Target, ptrs: Vec<InstrPtr>) -> (r: Option<
        Result<Option<State>, StepError>,
    >)
        ensures
            ({
                let h = handover(*p, self@, *expr, *target, ptrs_view(ptrs));
                match r {
                    None => h is None,
                    Some(Err(e)) => h == Some(Err::<Option<StateV>, StepError>(e)),
                    Some(Ok(None)) => h == Some(Ok::<Option<StateV>, StepError>(None)),
                    Some(Ok(Some(st))) => h == Some(Ok::<Option<StateV>, StepError>(Some(st@))),
                }
            }),
    {
        let v = match expr.eval(p, self) {
            None => return None,
            Some(Err(_)) => return Some(Ok(None)),
            Some(Ok(v)) => v,
        };
        let ix = match self.target_index(target, p) {
            None => return None,
            Some(Err(e)) => return Some(Err(e)),
            Some(Ok(ix)) => ix as usize,
        };
        if ix >= self.memory.data.len() {
            return None;
        }
        let st = State { ptrs, memory: self.memory.clone() };
        let mut st = st;
        st.set_data(ix, v);
        Some(Ok(Some(st)))
    }

    /// The pointers with processes `i` and `j` moved.
    fn moved(&self, i: usize, a: InstrPtr, j: usize, b: InstrPtr) -> (r: Vec<InstrPtr>)
        requires
            i < self@.ptrs.len(),
            j < self@.ptrs.len(),
        ensures
            ptrs_view(r) == self@.ptrs.update(i as int, a.0).update(j as int, b.0),
    {
        let mut v = copy_ptrs(&self.ptrs);
        v.set(i, a);
        v.set(j, b);
        assert(ptrs_view(v) =~= self@.ptrs.update(i as int, a.0).update(j as int, b.0));
        v
    }
}

pub(crate) open spec fn acc_result(r: Option<Result<(), StepError>>, acc: Seq<StateV>) -> Option<
    Result<Seq<StateV>, StepError>,
> {
    match r {
        None => None,
        Some(Err(e)) => Some(Err(e)),
        Some(Ok(())) => Some(Ok(acc)),
    }
}

pub(crate) open spec fn handover_view(h: Option<Result<Option<State>, StepError>>) -> Option<
    Result<Option<StateV>, StepError>,
> {
    match h {
        None => None,
        Some(Err(e)) => Some(Err(e)),
        Some(Ok(None)) => Some(Ok(None)),
        Some(Ok(Some(st))) => Some(Ok(Some(st@))),
    }
}

/// Appends the result of a handover.
fn push_handover(h: Option<Result<Option<State>, StepError>>, acc: &mut Vec<State>) -> (r: Option<
    Result<(), StepError>,
>)
    ensures
        acc_result(r, states_view(final(acc)@)) == add_handover(handover_view(h), states_view(old(acc)@)),
{
    match h {
        None => None,
        Some(Err(e)) => Some(Err(e)),
        Some(Ok(None)) => Some(Ok(())),
        Some(Ok(Some(st))) => {
            let ghost before = states_view(acc@);
            let ghost sv = st@;
            acc.push(st);
            assert(states_view(acc@) =~= before.push(sv));
            Some(Ok(()))
        },
    }
}

impl State {
    /// The handovers between process `i` and process `j`, appended to `acc`.
    fn pair_steps(&self, p: &Program, i: usize, j: usize, acc: &mut Vec<State>) -> (r: Option<
        Result<(), StepError>,
    >)
        requires
            i < self@.ptrs.len(),
            j < self@.ptrs.len(),
        ensures
            acc_result(r, states_view(final(acc)@)) == pair_steps(*p, self@, i as int, j as int, states_view(old(acc)@)),
    {
        let ii = match self.instr_of(p, i) {
            None => return None,
            Some(x) => x,
        };
        let jj = match self.instr_of(p, j) {
            None => return None,
            Some(x) => x,
        };
        match (ii, jj) {
            (Instr::SyncSend { channel: c1, expr }, Instr::SyncReceive { channel: c2, target }) => {
                if c1.0 == c2.0 {
                    let ptrs = self.moved(i, next_ptr(self.ptrs[i]), j, next_ptr(self.ptrs[j]));
                    let h = self.handover(p, expr, target, ptrs);
                    push_handover(h, acc)
                } else {
                    Some(Ok(()))
                }
            },
            (Instr::Branch { choices: ci, .. }, Instr::Branch { choices: cj, .. }) => {
                let ghost acc0 = states_view(acc@);
                let na = ci.len();
                let nb = cj.len();
                let mut a: usize = 0;
                while a < na
                    invariant
                        na == ci@.len(),
                        nb == cj@.len(),
                        a <= na,
                        i < self@.ptrs.len(),
                        j < self@.ptrs.len(),
                        acc0 == states_view(old(acc)@),
                        pair_steps(*p, self@, i as int, j as int, acc0) == pair_branches(
                            *p,
                            self@,
                            i as int,
                            j as int,
                            ci@,
                            cj@,
                            a as int,
                            0,
                            states_view(acc@),
                        ),
                    decreases na - a,
                {
                    let mut b: usize = 0;
                    while b < nb
                        invariant
                            na == ci@.len(),
                            nb == cj@.len(),
                            a < na,
                            b <= nb,
                            i < self@.ptrs.len(),
                            j < self@.ptrs.len(),
                            acc0 == states_view(old(acc)@),
                            pair_steps(*p, self@, i as int, j as int, acc0) == pair_branches(
                                *p,
                                self@,
                                i as int,
                                j as int,
                                ci@,
                                cj@,
                                a as int,
                                b as int,
                                states_view(acc@),
                            ),
                        decreases nb - b,
                    {
                        match (&ci[a].0, &cj[b].0) {
                            (CG::Send(c1, expr), CG::Receive(c2, t)) => {
                                if c1.0 == c2.0 {
                                    let ptrs = self.moved(i, ci[a].1, j, cj[b].1);
                                    let h = self.handover(p, expr, t, ptrs);
                                    match push_handover(h, acc) {
                                        None => return None,
                                        Some(Err(e)) => return Some(Err(e)),
                                        Some(Ok(())) => {},
                                    }
                                }
                            },
                            _ => {},
                        }
                        b += 1;
                    }
                    a += 1;
                }
                Some(Ok(()))
            },
            (Instr::SyncSend { channel: c1, expr }, Instr::Branch { choices: cj, .. }) => {
                let ghost acc0 = states_view(acc@);
                let nb = cj.len();
                let mut b: usize = 0;
                while b < nb
                    invariant
                        nb == cj@.len(),
                        b <= nb,
                        i < self@.ptrs.len(),
                        j < self@.ptrs.len(),
                        acc0 == states_view(old(acc)@),
                        pair_steps(*p, self@, i as int, j as int, acc0) == pair_send_branch(
                            *p,
                            self@,
                            i as int,
                            j as int,
                            *c1,
                            *expr,
                            cj@,
                            b as int,
                            states_view(acc@),
                        ),
                    decreases nb - b,
                {
                    match &cj[b].0 {
                        CG::Receive(c2, t) => {
                            if c1.0 == c2.0 {
                                let ptrs = self.moved(i, next_ptr(self.ptrs[i]), j, cj[b].1);
                                let h = self.handover(p, expr, t, ptrs);
                                match push_handover(h, acc) {
                                    None => return None,
                                    Some(Err(e)) => return Some(Err(e)),
                                    Some(Ok(())) => {},
                                }
                            }
                        },
                        _ => {},
                    }
                    b += 1;
                }
                Some(Ok(()))
            },
            (Instr::Branch { choices: ci, .. }, Instr::SyncReceive { channel: c2, target }) => {
                let ghost acc0 = states_view(acc@);
                let na = ci.len();
                let mut a: usize = 0;
                while a < na
                    invariant
                        na == ci@.len(),
                        a <= na,
                        i < self@.ptrs.len(),
                        j < self@.ptrs.len(),
                        acc0 == states_view(old(acc)@),
                        pair_steps(*p, self@, i as int, j as int, acc0) == pair_branch_receive(
                            *p,
                            self@,
                            i as int,
                            j as int,
                            ci@,
                            *c2,
                            *target,
                            a as int,
                            states_view(acc@),
                        ),
                    decreases na - a,
                {
                    match &ci[a].0 {
                        CG::Send(c1, expr) => {
                            if c1.0 == c2.0 {
                                let ptrs = self.moved(i, ci[a].1, j, next_ptr(self.ptrs[j]));
                                let h = self.handover(p, expr, target, ptrs);
                                match push_handover(h, acc) {
                                    None => return None,
                                    Some(Err(e)) => return Some(Err(e)),
                                    Some(Ok(())) => {},
                                }
                            }
                        },
                        _ => {},
                    }
                    a += 1;
                }
                Some(Ok(()))
            },
            _ => Some(Ok(())),
        }
    }

    /// All synchronous transitions of the state.
    pub(crate) fn find_sync_pairs(&self, p: &Program) -> (r: Option<Result<Vec<State>, StepError>>)
        ensures
            states_result(r) == sync_steps(*p, self@),
    {
        let mut acc: Vec<State> = Vec::new();
        assert(states_view(acc@) =~= seq![]);
        let n = self.ptrs.len();
        let mut i: usize = 0;
        while i < n
            invariant
                n == self@.ptrs.len(),
                i <= n,
                sync_steps(*p, self@) == sync_from(*p, self@, i as int, states_view(acc@)),
            decreases n - i,
        {
            let ghost acc_before = states_view(acc@);
            let mut ts = match self.collective_steps(p, i) {
                None => return None,
                Some(Err(e)) => return Some(Err(e)),
                Some(Ok(ts)) => ts,
            };
            let ghost tsv = states_view(ts@);
            acc.append(&mut ts);
            assert(states_view(acc@) =~= acc_before + tsv);
            let mut j: usize = 0;
            while j < n
                invariant
                    n == self@.ptrs.len(),
                    i < n,
                    j <= n,
                    sync_steps(*p, self@) == match pairs_from(*p, self@, i as int, 0, acc_before + tsv) {
                        Some(Ok(acc2)) => sync_from(*p, self@, i + 1, acc2),
                        other => other,
                    },
                    pairs_from(*p, self@, i as int, 0, acc_before + tsv) == pairs_from(
                        *p,
                        self@,
                        i as int,
                        j as int,
                        states_view(acc@),
                    ),
                decreases n - j,
            {
                if j != i {
                    match self.pair_steps(p, i, j, &mut acc) {
                        None => return None,
                        Some(Err(e)) => return Some(Err(e)),
                        Some(Ok(())) => {},
                    }
                }
                j += 1;
            }
            i += 1;
        }
        Some(Ok(acc))
    }
}

} // verus!
